//! The symbol-dependency extractor. One structural pass over
//! the module's top-level items produces the `SymbolDependency` record:
//! local bindings with the module-scoped names their initializers
//! reference, imports, named exports, the default export, and star
//! re-exports. Duplicate bindings, duplicate named exports and ill-formed
//! default exports are fatal for the module.

use vstd::prelude::*;
use crate::ast::{
    legal_ident, Expr, ExportName, ExportSpecifier, ImportClause, ModuleAst, ModuleItem,
};
use crate::bytes::string_eq;
use crate::model::{
    anon_default_name, anon_default_symbol_name, FromOtherModule, FromOtherModuleV, FromType,
    FromTypeV, ModuleExport, ModuleExportV, ModuleScopedVariable, ModuleScopedVariableV,
    SymbolDependency, SymbolDependencyV,
};

verus! {

/// Why a module's record could not be extracted.
#[derive(PartialEq, Eq, Structural, Clone, Copy, Debug)]
pub enum ExtractorError {
    DuplicateLocalBinding,
    DuplicateNamedExport,
    MalformedDefaultExport,
}

pub open spec fn local_keys(v: SymbolDependencyV) -> Seq<Seq<char>> {
    v.local_variable_table.map_values(|p: (Seq<char>, ModuleScopedVariableV)| p.0)
}

pub open spec fn export_keys(v: SymbolDependencyV) -> Seq<Seq<char>> {
    v.named_export_table.map_values(|p: (Seq<char>, ModuleExportV)| p.0)
}

/// The record a module starts from: only its path.
pub open spec fn empty_rec(path: Seq<char>) -> SymbolDependencyV {
    SymbolDependencyV {
        canonical_path: path,
        local_variable_table: Seq::empty(),
        named_export_table: Seq::empty(),
        default_export: None,
        re_export_star_from: None,
    }
}

/// Add a local binding; a second binding of the same name is fatal.
pub open spec fn add_local_v(
    v: SymbolDependencyV,
    name: Seq<char>,
    var: ModuleScopedVariableV,
) -> Result<SymbolDependencyV, ExtractorError> {
    if local_keys(v).contains(name) {
        Err(ExtractorError::DuplicateLocalBinding)
    } else {
        Ok(
            SymbolDependencyV {
                local_variable_table: v.local_variable_table.push((name, var)),
                ..v
            },
        )
    }
}

/// Add a named export; a second export of the same name is fatal.
pub open spec fn add_export_v(v: SymbolDependencyV, name: Seq<char>, e: ModuleExportV) -> Result<
    SymbolDependencyV,
    ExtractorError,
> {
    if export_keys(v).contains(name) {
        Err(ExtractorError::DuplicateNamedExport)
    } else {
        Ok(SymbolDependencyV { named_export_table: v.named_export_table.push((name, e)), ..v })
    }
}

/// Set the default export; a second default export is fatal.
pub open spec fn set_default_v(v: SymbolDependencyV, e: ModuleExportV) -> Result<
    SymbolDependencyV,
    ExtractorError,
> {
    if v.default_export is Some {
        Err(ExtractorError::MalformedDefaultExport)
    } else {
        Ok(SymbolDependencyV { default_export: Some(e), ..v })
    }
}

/// Append a star re-export source.
pub open spec fn push_star_v(v: SymbolDependencyV, src: Seq<char>) -> SymbolDependencyV {
    SymbolDependencyV {
        re_export_star_from: match v.re_export_star_from {
            None => Some(seq![src]),
            Some(l) => Some(l.push(src)),
        },
        ..v
    }
}

/// The initializer's references that are module-scoped names, first
/// occurrence kept, duplicates dropped.
pub open spec fn deps_upto(refs: Seq<String>, locals: Seq<Seq<char>>, bound: int) -> Seq<Seq<char>>
    decreases bound,
{
    if bound <= 0 {
        Seq::empty()
    } else {
        let acc = deps_upto(refs, locals, bound - 1);
        let r = refs[bound - 1]@;
        if locals.contains(r) && !acc.contains(r) {
            acc.push(r)
        } else {
            acc
        }
    }
}

/// `depend_on` of an initializer: absent when no module-scoped name is
/// referenced.
pub open spec fn deps_of_expr(init: Option<Expr>, locals: Seq<Seq<char>>) -> Option<
    Seq<Seq<char>>,
> {
    match init {
        None => None,
        Some(e) => {
            let d = deps_upto(e.refs@, locals, e.refs@.len() as int);
            if d.len() == 0 {
                None
            } else {
                Some(d)
            }
        },
    }
}

/// The local name an import clause binds.
pub open spec fn clause_local(c: ImportClause) -> Seq<char> {
    match c {
        ImportClause::Default { local } => local@,
        ImportClause::Named { local, .. } => local@,
        ImportClause::Namespace { local } => local@,
    }
}

/// The `ModuleScopedVariable` an import clause produces.
pub open spec fn clause_var(c: ImportClause, src: Seq<char>) -> ModuleScopedVariableV {
    ModuleScopedVariableV {
        depend_on: None,
        import_from: Some(
            FromOtherModuleV {
                from: src,
                from_type: match c {
                    ImportClause::Default { .. } => FromTypeV::Default,
                    ImportClause::Named { imported, .. } => FromTypeV::Named(imported@),
                    ImportClause::Namespace { .. } => FromTypeV::Namespace,
                },
            },
        ),
    }
}

/// Fold the clauses of one import statement.
pub open spec fn ex_clauses_upto(
    v: SymbolDependencyV,
    src: Seq<char>,
    clauses: Seq<ImportClause>,
    bound: int,
) -> Result<SymbolDependencyV, ExtractorError>
    decreases bound,
{
    if bound <= 0 {
        Ok(v)
    } else {
        match ex_clauses_upto(v, src, clauses, bound - 1) {
            Err(e) => Err(e),
            Ok(s1) => add_local_v(
                s1,
                clause_local(clauses[bound - 1]),
                clause_var(clauses[bound - 1], src),
            ),
        }
    }
}

/// Fold the bound names of one declaration into the local table.
pub open spec fn ex_decl_locals_upto(
    v: SymbolDependencyV,
    names: Seq<String>,
    dep: Option<Seq<Seq<char>>>,
    bound: int,
) -> Result<SymbolDependencyV, ExtractorError>
    decreases bound,
{
    if bound <= 0 {
        Ok(v)
    } else {
        match ex_decl_locals_upto(v, names, dep, bound - 1) {
            Err(e) => Err(e),
            Ok(s1) => add_local_v(
                s1,
                names[bound - 1]@,
                ModuleScopedVariableV { depend_on: dep, import_from: None },
            ),
        }
    }
}

/// Fold the bound names of one exported declaration into the export table.
pub open spec fn ex_decl_exports_upto(
    v: SymbolDependencyV,
    names: Seq<String>,
    bound: int,
) -> Result<SymbolDependencyV, ExtractorError>
    decreases bound,
{
    if bound <= 0 {
        Ok(v)
    } else {
        match ex_decl_exports_upto(v, names, bound - 1) {
            Err(e) => Err(e),
            Ok(s1) => add_export_v(s1, names[bound - 1]@, ModuleExportV::Local(names[bound - 1]@)),
        }
    }
}

/// One specifier of an `export { … }` statement.
pub open spec fn ex_spec_one(
    v: SymbolDependencyV,
    sp: ExportSpecifier,
    src: Option<Seq<char>>,
) -> Result<SymbolDependencyV, ExtractorError> {
    match src {
        None => match sp.orig {
            ExportName::Named(a) => match sp.exported {
                ExportName::Named(c) => add_export_v(v, c@, ModuleExportV::Local(a@)),
                ExportName::Default => set_default_v(v, ModuleExportV::Local(a@)),
            },
            ExportName::Default => Err(ExtractorError::MalformedDefaultExport),
        },
        Some(s) => match sp.orig {
            ExportName::Named(a) => match sp.exported {
                ExportName::Named(c) => add_export_v(
                    v,
                    c@,
                    ModuleExportV::ReExportFrom(
                        FromOtherModuleV { from: s, from_type: FromTypeV::Named(a@) },
                    ),
                ),
                ExportName::Default => set_default_v(
                    v,
                    ModuleExportV::ReExportFrom(
                        FromOtherModuleV { from: s, from_type: FromTypeV::Named(a@) },
                    ),
                ),
            },
            ExportName::Default => match sp.exported {
                ExportName::Named(c) => add_export_v(
                    v,
                    c@,
                    ModuleExportV::ReExportFrom(
                        FromOtherModuleV { from: s, from_type: FromTypeV::Default },
                    ),
                ),
                ExportName::Default => set_default_v(
                    v,
                    ModuleExportV::ReExportFrom(
                        FromOtherModuleV { from: s, from_type: FromTypeV::Default },
                    ),
                ),
            },
        },
    }
}

/// Fold the specifiers of one `export { … }` statement.
pub open spec fn ex_specs_upto(
    v: SymbolDependencyV,
    specs: Seq<ExportSpecifier>,
    src: Option<Seq<char>>,
    bound: int,
) -> Result<SymbolDependencyV, ExtractorError>
    decreases bound,
{
    if bound <= 0 {
        Ok(v)
    } else {
        match ex_specs_upto(v, specs, src, bound - 1) {
            Err(e) => Err(e),
            Ok(s1) => ex_spec_one(s1, specs[bound - 1], src),
        }
    }
}

/// What one top-level item contributes to the record.
pub open spec fn ex_item(
    v: SymbolDependencyV,
    locals_all: Seq<Seq<char>>,
    item: ModuleItem,
) -> Result<SymbolDependencyV, ExtractorError> {
    match item {
        ModuleItem::Import { src, clauses } => ex_clauses_upto(
            v,
            src@,
            clauses@,
            clauses@.len() as int,
        ),
        ModuleItem::SideEffectImport { .. } => Ok(v),
        ModuleItem::Decl { names, init, exported } => {
            let dep = deps_of_expr(init, locals_all);
            match ex_decl_locals_upto(v, names@, dep, names@.len() as int) {
                Err(e) => Err(e),
                Ok(s1) => if exported {
                    ex_decl_exports_upto(s1, names@, names@.len() as int)
                } else {
                    Ok(s1)
                },
            }
        },
        ModuleItem::ExportDefaultIdent { name } => set_default_v(v, ModuleExportV::Local(name@)),
        ModuleItem::ExportDefaultExpr { init } => {
            let dep = deps_of_expr(Some(init), locals_all);
            match add_local_v(
                v,
                anon_default_name(),
                ModuleScopedVariableV { depend_on: dep, import_from: None },
            ) {
                Err(e) => Err(e),
                Ok(s1) => set_default_v(s1, ModuleExportV::Local(anon_default_name())),
            }
        },
        ModuleItem::ExportNamed { specifiers, src } => ex_specs_upto(
            v,
            specifiers@,
            match src {
                Some(s) => Some(s@),
                None => None,
            },
            specifiers@.len() as int,
        ),
        ModuleItem::ExportStarAs { name, src } => match name {
            ExportName::Named(n) => add_export_v(
                v,
                n@,
                ModuleExportV::ReExportFrom(
                    FromOtherModuleV { from: src@, from_type: FromTypeV::Namespace },
                ),
            ),
            ExportName::Default => Err(ExtractorError::MalformedDefaultExport),
        },
        ModuleItem::ExportStar { src } => Ok(push_star_v(v, src@)),
        ModuleItem::Stmt { .. } => Ok(v),
    }
}

/// Fold the whole item list.
pub open spec fn ex_upto(
    path: Seq<char>,
    items: Seq<ModuleItem>,
    locals_all: Seq<Seq<char>>,
    bound: int,
) -> Result<SymbolDependencyV, ExtractorError>
    decreases bound,
{
    if bound <= 0 {
        Ok(empty_rec(path))
    } else {
        match ex_upto(path, items, locals_all, bound - 1) {
            Err(e) => Err(e),
            Ok(s1) => ex_item(s1, locals_all, items[bound - 1]),
        }
    }
}

/// The module-scoped names one item binds (duplicates included).
pub open spec fn item_names(item: ModuleItem) -> Seq<Seq<char>> {
    match item {
        ModuleItem::Import { clauses, .. } => clauses@.map_values(|c: ImportClause| clause_local(c)),
        ModuleItem::Decl { names, .. } => names@.map_values(|n: String| n@),
        ModuleItem::ExportDefaultExpr { .. } => seq![anon_default_name()],
        _ => Seq::empty(),
    }
}

/// All module-scoped names of the module, in item order.
pub open spec fn scope_names_upto(items: Seq<ModuleItem>, bound: int) -> Seq<Seq<char>>
    decreases bound,
{
    if bound <= 0 {
        Seq::empty()
    } else {
        scope_names_upto(items, bound - 1) + item_names(items[bound - 1])
    }
}

/// The full extraction of a module: the item fold against the module's
/// complete scope-name list.
pub open spec fn extract_spec(path: Seq<char>, items: Seq<ModuleItem>) -> Result<
    SymbolDependencyV,
    ExtractorError,
> {
    ex_upto(path, items, scope_names_upto(items, items.len() as int), items.len() as int)
}


/// A legal sourced-name form.
pub open spec fn from_wf_v(ft: FromTypeV) -> bool {
    match ft {
        FromTypeV::Named(n) => legal_ident(n),
        _ => true,
    }
}

pub open spec fn export_wf_v(e: ModuleExportV) -> bool {
    match e {
        ModuleExportV::Local(n) => n.len() > 0,
        ModuleExportV::ReExportFrom(f) => from_wf_v(f.from_type),
    }
}

/// A default export may not re-export a namespace.
pub open spec fn default_wf_v(e: ModuleExportV) -> bool {
    &&& export_wf_v(e)
    &&& match e {
        ModuleExportV::ReExportFrom(f) => !(f.from_type is Namespace),
        _ => true,
    }
}

/// Every element of `ds` is one of the module's scope names.
pub open spec fn all_in(ds: Seq<Seq<char>>, locals_all: Seq<Seq<char>>) -> bool {
    forall|i: int| 0 <= i < ds.len() ==> locals_all.contains(#[trigger] ds[i])
}

/// A local entry under construction: non-empty key, dependencies drawn
/// from the module's scope names, legal import source.
pub open spec fn entry_wf(p: (Seq<char>, ModuleScopedVariableV), locals_all: Seq<Seq<char>>) -> bool {
    &&& p.0.len() > 0
    &&& match p.1.depend_on {
        Some(ds) => all_in(ds, locals_all),
        None => true,
    }
    &&& match p.1.import_from {
        Some(f) => from_wf_v(f.from_type),
        None => true,
    }
}

/// The record under construction is well-formed relative to the module's
/// scope-name list.
pub open spec fn builder_wf(v: SymbolDependencyV, locals_all: Seq<Seq<char>>) -> bool {
    &&& forall|i: int, j: int|
        0 <= i < j < local_keys(v).len() ==> local_keys(v)[i] != local_keys(v)[j]
    &&& forall|i: int, j: int|
        0 <= i < j < export_keys(v).len() ==> export_keys(v)[i] != export_keys(v)[j]
    &&& forall|i: int|
        0 <= i < v.local_variable_table.len() ==> entry_wf(
            #[trigger] v.local_variable_table[i],
            locals_all,
        )
    &&& forall|i: int|
        0 <= i < v.named_export_table.len() ==> legal_ident((#[trigger] v.named_export_table[i]).0)
            && export_wf_v(v.named_export_table[i].1)
    &&& match v.default_export {
        Some(e) => default_wf_v(e),
        None => true,
    }
}

/// A finished well-formed builder state whose scope names all reached the
/// local table is a well-formed record.
pub proof fn lemma_builder_wf_record(rec: SymbolDependency, locals_all: Seq<Seq<char>>)
    requires
        builder_wf(rec@, locals_all),
        forall|n: Seq<char>| locals_all.contains(n) ==> local_keys(rec@).contains(n),
    ensures
        rec.wf(),
{
    assert(rec.local_names() =~= local_keys(rec@));
    assert(rec.export_names() =~= export_keys(rec@));
    assert forall|i: int|
        0 <= i < rec.local_variable_table@.len() implies (
    #[trigger] rec.local_variable_table@[i].1).wf(rec.local_names()) by {
        let p = rec.local_variable_table@[i];
        assert(rec@.local_variable_table[i] == (p.0@, p.1@));
        assert(entry_wf((p.0@, p.1@), locals_all));
        match p.1.depend_on {
            Some(ds) => {
                assert forall|k: int| 0 <= k < ds@.len() implies rec.local_names().contains(
                    #[trigger] ds@[k]@,
                ) by {
                    assert(entry_wf((p.0@, p.1@), locals_all));
                    let dv = ds@.map_values(|d: String| d@);
                    assert(p.1@.depend_on == Some(dv));
                    assert(all_in(dv, locals_all));
                    assert(0 <= k < dv.len());
                    assert(locals_all.contains(dv[k]));
                    assert(dv[k] == ds@[k]@);
                }
            },
            None => {},
        }
        match p.1.import_from {
            Some(f) => {
                assert(from_wf_v(f@.from_type));
            },
            None => {},
        }
    }
    assert forall|i: int|
        0 <= i < rec.named_export_table@.len() implies (
    #[trigger] rec.named_export_table@[i].1).wf() by {
        assert(rec@.named_export_table[i] == (
            rec.named_export_table@[i].0@,
            rec.named_export_table@[i].1@,
        ));
    }
    assert forall|i: int|
        0 <= i < rec.local_names().len() implies rec.local_names()[i].len() > 0 by {
        assert(entry_wf(rec@.local_variable_table[i], locals_all));
    }
    assert forall|i: int|
        0 <= i < rec.export_names().len() implies rec.export_names()[i].len() > 0
            && rec.export_names()[i] != anon_default_name() by {
        assert(legal_ident(rec@.named_export_table[i].0));
    }
    match rec.default_export {
        Some(e) => {
            assert(default_wf_v(e@));
        },
        None => {},
    }
}

/// An error anywhere in the item fold is the outcome of the whole fold.
pub proof fn lemma_ex_upto_err(
    path: Seq<char>,
    items: Seq<ModuleItem>,
    locals_all: Seq<Seq<char>>,
    j: int,
    bound: int,
    e: ExtractorError,
)
    requires
        ex_upto(path, items, locals_all, j) == Err::<SymbolDependencyV, ExtractorError>(e),
        j <= bound,
    ensures
        ex_upto(path, items, locals_all, bound) == Err::<SymbolDependencyV, ExtractorError>(e),
    decreases bound,
{
    if bound > j {
        lemma_ex_upto_err(path, items, locals_all, j, bound - 1, e);
    }
}


/// Does the string list contain `x` (by value)?
fn vec_contains_str(v: &Vec<String>, x: &String) -> (r: bool)
    ensures
        r == v@.map_values(|s: String| s@).contains(x@),
{
    let ghost vv = v@.map_values(|s: String| s@);
    let mut i: usize = 0;
    while i < v.len()
        invariant
            vv == v@.map_values(|s: String| s@),
            0 <= i <= v@.len(),
            forall|j: int| 0 <= j < i ==> vv[j] != x@,
        decreases v@.len() - i,
    {
        if string_eq(&v[i], x) {
            proof {
                assert(vv[i as int] == x@);
            }
            return true;
        }
        i += 1;
    }
    proof {
        if vv.contains(x@) {
            let w = choose|w: int| 0 <= w < vv.len() && vv[w] == x@;
            assert(false);
        }
    }
    false
}

/// Is `name` already a key of the local table?
fn has_local_key(rec: &SymbolDependency, name: &String) -> (r: bool)
    ensures
        r == local_keys(rec@).contains(name@),
{
    let ghost kv = local_keys(rec@);
    let mut i: usize = 0;
    while i < rec.local_variable_table.len()
        invariant
            kv == local_keys(rec@),
            kv.len() == rec.local_variable_table@.len(),
            0 <= i <= kv.len(),
            forall|j: int| 0 <= j < i ==> kv[j] != name@,
        decreases kv.len() - i,
    {
        if string_eq(&rec.local_variable_table[i].0, name) {
            proof {
                assert(kv[i as int] == name@);
            }
            return true;
        }
        proof {
            assert(kv[i as int] == rec.local_variable_table@[i as int].0@);
        }
        i += 1;
    }
    proof {
        if kv.contains(name@) {
            let w = choose|w: int| 0 <= w < kv.len() && kv[w] == name@;
            assert(false);
        }
    }
    false
}

/// Is `name` already a key of the named-export table?
fn has_export_key(rec: &SymbolDependency, name: &String) -> (r: bool)
    ensures
        r == export_keys(rec@).contains(name@),
{
    let ghost kv = export_keys(rec@);
    let mut i: usize = 0;
    while i < rec.named_export_table.len()
        invariant
            kv == export_keys(rec@),
            kv.len() == rec.named_export_table@.len(),
            0 <= i <= kv.len(),
            forall|j: int| 0 <= j < i ==> kv[j] != name@,
        decreases kv.len() - i,
    {
        if string_eq(&rec.named_export_table[i].0, name) {
            proof {
                assert(kv[i as int] == name@);
            }
            return true;
        }
        proof {
            assert(kv[i as int] == rec.named_export_table@[i as int].0@);
        }
        i += 1;
    }
    proof {
        if kv.contains(name@) {
            let w = choose|w: int| 0 <= w < kv.len() && kv[w] == name@;
            assert(false);
        }
    }
    false
}

/// Add a local binding to the record under construction.
fn add_local(rec: &mut SymbolDependency, name: String, var: ModuleScopedVariable) -> (r: Result<
    (),
    ExtractorError,
>)
    ensures
        r matches Ok(u) ==> add_local_v(old(rec)@, name@, var@) == Ok::<
            SymbolDependencyV,
            ExtractorError,
        >(final(rec)@) && local_keys(final(rec)@) == local_keys(old(rec)@).push(name@)
            && export_keys(final(rec)@) == export_keys(old(rec)@),
        r matches Err(e) ==> add_local_v(old(rec)@, name@, var@) == Err::<
            SymbolDependencyV,
            ExtractorError,
        >(e) && final(rec)@ == old(rec)@,
        forall|lall: Seq<Seq<char>>|
            builder_wf(old(rec)@, lall) && name@.len() > 0 && entry_wf((name@, var@), lall)
                ==> builder_wf(final(rec)@, lall),
{
    if has_local_key(rec, &name) {
        return Err(ExtractorError::DuplicateLocalBinding);
    }
    let ghost o = rec@;
    rec.local_variable_table.push((name, var));
    proof {
        assert(rec@.local_variable_table =~= o.local_variable_table.push((name@, var@)));
        assert(rec@ =~~= (SymbolDependencyV {
            local_variable_table: o.local_variable_table.push((name@, var@)),
            ..o
        }));
        assert(local_keys(rec@) =~= local_keys(o).push(name@));
        assert(export_keys(rec@) =~= export_keys(o));
        assert forall|lall: Seq<Seq<char>>|
            builder_wf(o, lall) && name@.len() > 0 && entry_wf((name@, var@), lall)
                implies builder_wf(rec@, lall) by {
            assert forall|a: int, b: int|
                0 <= a < b < local_keys(rec@).len() implies local_keys(rec@)[a] != local_keys(
                rec@,
            )[b] by {
                if b < local_keys(o).len() {
                } else {
                    assert(!local_keys(o).contains(name@));
                }
            }
        }
    }
    Ok(())
}

/// Add a named export to the record under construction.
fn add_export(rec: &mut SymbolDependency, name: String, e: ModuleExport) -> (r: Result<
    (),
    ExtractorError,
>)
    ensures
        r matches Ok(u) ==> add_export_v(old(rec)@, name@, e@) == Ok::<
            SymbolDependencyV,
            ExtractorError,
        >(final(rec)@) && local_keys(final(rec)@) == local_keys(old(rec)@),
        r matches Err(er) ==> add_export_v(old(rec)@, name@, e@) == Err::<
            SymbolDependencyV,
            ExtractorError,
        >(er) && final(rec)@ == old(rec)@,
        forall|lall: Seq<Seq<char>>|
            builder_wf(old(rec)@, lall) && legal_ident(name@) && export_wf_v(e@)
                ==> builder_wf(final(rec)@, lall),
{
    if has_export_key(rec, &name) {
        return Err(ExtractorError::DuplicateNamedExport);
    }
    let ghost o = rec@;
    rec.named_export_table.push((name, e));
    proof {
        assert(rec@.named_export_table =~= o.named_export_table.push((name@, e@)));
        assert(rec@ =~~= (SymbolDependencyV {
            named_export_table: o.named_export_table.push((name@, e@)),
            ..o
        }));
        assert(local_keys(rec@) =~= local_keys(o));
        assert(export_keys(rec@) =~= export_keys(o).push(name@));
        assert forall|lall: Seq<Seq<char>>|
            builder_wf(o, lall) && legal_ident(name@) && export_wf_v(e@) implies builder_wf(
            rec@,
            lall,
        ) by {
            assert forall|a: int, b: int|
                0 <= a < b < export_keys(rec@).len() implies export_keys(rec@)[a] != export_keys(
                rec@,
            )[b] by {
                if b < export_keys(o).len() {
                } else {
                    assert(!export_keys(o).contains(name@));
                }
            }
        }
    }
    Ok(())
}

/// Set the default export of the record under construction.
fn set_default(rec: &mut SymbolDependency, e: ModuleExport) -> (r: Result<(), ExtractorError>)
    ensures
        r matches Ok(u) ==> set_default_v(old(rec)@, e@) == Ok::<
            SymbolDependencyV,
            ExtractorError,
        >(final(rec)@) && local_keys(final(rec)@) == local_keys(old(rec)@),
        r matches Err(er) ==> set_default_v(old(rec)@, e@) == Err::<
            SymbolDependencyV,
            ExtractorError,
        >(er) && final(rec)@ == old(rec)@,
        forall|lall: Seq<Seq<char>>|
            builder_wf(old(rec)@, lall) && default_wf_v(e@) ==> builder_wf(final(rec)@, lall),
{
    if rec.default_export.is_some() {
        return Err(ExtractorError::MalformedDefaultExport);
    }
    let ghost o = rec@;
    rec.default_export = Some(e);
    proof {
        assert(rec@ =~~= (SymbolDependencyV { default_export: Some(e@), ..o }));
        assert(local_keys(rec@) =~= local_keys(o));
        assert(export_keys(rec@) =~= export_keys(o));
    }
    Ok(())
}

/// Append a star re-export source to the record under construction.
fn push_star(rec: &mut SymbolDependency, src: String)
    ensures
        final(rec)@ == push_star_v(old(rec)@, src@),
        local_keys(final(rec)@) == local_keys(old(rec)@),
        forall|lall: Seq<Seq<char>>|
            builder_wf(old(rec)@, lall) ==> builder_wf(final(rec)@, lall),
{
    let ghost o = rec@;
    let ghost srcv = src@;
    let had = rec.re_export_star_from.is_some();
    let ghost oldvec: Seq<String> = if had {
        rec.re_export_star_from->Some_0@
    } else {
        Seq::empty()
    };
    match &mut rec.re_export_star_from {
        Some(l) => {
            l.push(src);
        },
        None => {
            let mut l: Vec<String> = Vec::new();
            l.push(src);
            rec.re_export_star_from = Some(l);
        },
    }
    proof {
        let newvec: Seq<String> = rec.re_export_star_from->Some_0@;
        let nlm = newvec.map_values(|x: String| x@);
        assert(rec@.re_export_star_from == Some(nlm));
        if had {
            let olm = oldvec.map_values(|x: String| x@);
            assert(o.re_export_star_from == Some(olm));
            assert(newvec == oldvec.push(src));
            assert(nlm.len() == olm.len() + 1);
            assert forall|j: int| 0 <= j < nlm.len() implies nlm[j] == olm.push(srcv)[j] by {
                if j < olm.len() {
                    assert(newvec[j] == oldvec[j]);
                } else {
                    assert(newvec[j] == src);
                }
            }
            assert(nlm =~= olm.push(srcv));
        } else {
            assert(newvec.len() == 1);
            assert(newvec[0] == src);
            assert(nlm =~= seq![srcv]);
        }
        assert(rec@ =~~= push_star_v(o, srcv));
        assert(local_keys(rec@) =~= local_keys(o));
        assert(export_keys(rec@) =~= export_keys(o));
    }
}

/// The module-scoped names the initializer references, in first-reference
/// order, or nothing when there are none.
fn compute_deps(e: &Expr, locals: &Vec<String>) -> (r: Option<Vec<String>>)
    ensures
        ({
            let spec_r = deps_of_expr(Some(*e), locals@.map_values(|s: String| s@));
            match r {
                Some(v) => spec_r == Some(v@.map_values(|s: String| s@)),
                None => spec_r is None,
            }
        }),
{
    let ghost lv = locals@.map_values(|s: String| s@);
    let mut acc: Vec<String> = Vec::new();
    let mut i: usize = 0;
    proof {
        assert(acc@.map_values(|s: String| s@) =~= deps_upto(e.refs@, lv, 0));
    }
    while i < e.refs.len()
        invariant
            lv == locals@.map_values(|s: String| s@),
            0 <= i <= e.refs@.len(),
            acc@.map_values(|s: String| s@) == deps_upto(e.refs@, lv, i as int),
        decreases e.refs@.len() - i,
    {
        let rf = &e.refs[i];
        if vec_contains_str(locals, rf) && !vec_contains_str(&acc, rf) {
            let ghost oldm = acc@.map_values(|s: String| s@);
            let ghost oldv = acc@;
            acc.push(rf.clone());
            proof {
                let m = acc@.map_values(|s: String| s@);
                assert(m.len() == oldm.len() + 1);
                assert forall|j: int| 0 <= j < m.len() implies m[j] == oldm.push(rf@)[j] by {
                    if j < oldm.len() {
                        assert(acc@[j] == oldv[j]);
                    }
                }
                assert(m =~= oldm.push(rf@));
                assert(m =~= deps_upto(e.refs@, lv, i + 1));
            }
        } else {
            proof {
                assert(acc@.map_values(|s: String| s@) =~= deps_upto(e.refs@, lv, i + 1));
            }
        }
        i += 1;
    }
    if acc.len() == 0 {
        proof {
            assert(deps_upto(e.refs@, lv, e.refs@.len() as int).len() == 0);
        }
        None
    } else {
        Some(acc)
    }
}


pub proof fn lemma_prefix_contains<T>(a: Seq<T>, b: Seq<T>, x: T)
    requires
        a.is_prefix_of(b),
        a.contains(x),
    ensures
        b.contains(x),
{
    let w = choose|w: int| 0 <= w < a.len() && a[w] == x;
    assert(b[w] == x);
}

/// Local keys only grow, by pushes, through every fold step.
pub proof fn lemma_clauses_prefix(
    v: SymbolDependencyV,
    src: Seq<char>,
    clauses: Seq<ImportClause>,
    bound: int,
)
    requires
        ex_clauses_upto(v, src, clauses, bound) is Ok,
    ensures
        local_keys(v).is_prefix_of(local_keys(ex_clauses_upto(v, src, clauses, bound)->Ok_0)),
        forall|k: int|
            0 <= k < bound ==> local_keys(ex_clauses_upto(v, src, clauses, bound)->Ok_0).contains(
                clause_local(#[trigger] clauses[k]),
            ),
    decreases bound,
{
    if bound <= 0 {
        assert(local_keys(v).is_prefix_of(local_keys(v)));
    } else {
        lemma_clauses_prefix(v, src, clauses, bound - 1);
        let s1 = ex_clauses_upto(v, src, clauses, bound - 1)->Ok_0;
        let s2 = ex_clauses_upto(v, src, clauses, bound)->Ok_0;
        assert(local_keys(s2) =~= local_keys(s1).push(clause_local(clauses[bound - 1])));
        assert(local_keys(s1).is_prefix_of(local_keys(s2)));
        assert(local_keys(s2).contains(clause_local(clauses[bound - 1]))) by {
            assert(local_keys(s2).last() == clause_local(clauses[bound - 1]));
        }
        assert forall|k: int| 0 <= k < bound - 1 implies local_keys(s2).contains(
            clause_local(#[trigger] clauses[k]),
        ) by {
            lemma_prefix_contains(local_keys(s1), local_keys(s2), clause_local(clauses[k]));
        }
    }
}

pub proof fn lemma_decl_locals_prefix(
    v: SymbolDependencyV,
    names: Seq<String>,
    dep: Option<Seq<Seq<char>>>,
    bound: int,
)
    requires
        ex_decl_locals_upto(v, names, dep, bound) is Ok,
    ensures
        local_keys(v).is_prefix_of(local_keys(ex_decl_locals_upto(v, names, dep, bound)->Ok_0)),
        forall|k: int|
            0 <= k < bound ==> local_keys(ex_decl_locals_upto(v, names, dep, bound)->Ok_0).contains(
                (#[trigger] names[k])@,
            ),
    decreases bound,
{
    if bound <= 0 {
        assert(local_keys(v).is_prefix_of(local_keys(v)));
    } else {
        lemma_decl_locals_prefix(v, names, dep, bound - 1);
        let s1 = ex_decl_locals_upto(v, names, dep, bound - 1)->Ok_0;
        let s2 = ex_decl_locals_upto(v, names, dep, bound)->Ok_0;
        assert(local_keys(s2) =~= local_keys(s1).push(names[bound - 1]@));
        assert(local_keys(s1).is_prefix_of(local_keys(s2)));
        assert(local_keys(s2).contains(names[bound - 1]@)) by {
            assert(local_keys(s2).last() == names[bound - 1]@);
        }
        assert forall|k: int| 0 <= k < bound - 1 implies local_keys(s2).contains(
            (#[trigger] names[k])@,
        ) by {
            lemma_prefix_contains(local_keys(s1), local_keys(s2), names[k]@);
        }
    }
}

pub proof fn lemma_decl_exports_keys(v: SymbolDependencyV, names: Seq<String>, bound: int)
    requires
        ex_decl_exports_upto(v, names, bound) is Ok,
    ensures
        local_keys(ex_decl_exports_upto(v, names, bound)->Ok_0) == local_keys(v),
    decreases bound,
{
    if bound > 0 {
        lemma_decl_exports_keys(v, names, bound - 1);
        let s1 = ex_decl_exports_upto(v, names, bound - 1)->Ok_0;
        let s2 = ex_decl_exports_upto(v, names, bound)->Ok_0;
        assert(local_keys(s2) =~= local_keys(s1));
    }
}

pub proof fn lemma_specs_keys(
    v: SymbolDependencyV,
    specs: Seq<ExportSpecifier>,
    src: Option<Seq<char>>,
    bound: int,
)
    requires
        ex_specs_upto(v, specs, src, bound) is Ok,
    ensures
        local_keys(ex_specs_upto(v, specs, src, bound)->Ok_0) == local_keys(v),
    decreases bound,
{
    if bound > 0 {
        lemma_specs_keys(v, specs, src, bound - 1);
        let s1 = ex_specs_upto(v, specs, src, bound - 1)->Ok_0;
        let s2 = ex_specs_upto(v, specs, src, bound)->Ok_0;
        assert(local_keys(s2) =~= local_keys(s1));
    }
}

/// One item's step keeps the existing local keys and covers the names the
/// item binds.
pub proof fn lemma_item_covers(v: SymbolDependencyV, locals_all: Seq<Seq<char>>, item: ModuleItem)
    requires
        ex_item(v, locals_all, item) is Ok,
    ensures
        local_keys(v).is_prefix_of(local_keys(ex_item(v, locals_all, item)->Ok_0)),
        forall|k: int|
            0 <= k < item_names(item).len() ==> local_keys(ex_item(v, locals_all, item)->Ok_0).contains(
                #[trigger] item_names(item)[k],
            ),
{
    let out = ex_item(v, locals_all, item)->Ok_0;
    match item {
        ModuleItem::Import { src, clauses } => {
            lemma_clauses_prefix(v, src@, clauses@, clauses@.len() as int);
            assert forall|k: int| 0 <= k < item_names(item).len() implies local_keys(out).contains(
                #[trigger] item_names(item)[k],
            ) by {
                assert(item_names(item)[k] == clause_local(clauses@[k]));
            }
        },
        ModuleItem::Decl { names, init, exported } => {
            let dep = deps_of_expr(init, locals_all);
            let s1 = ex_decl_locals_upto(v, names@, dep, names@.len() as int)->Ok_0;
            lemma_decl_locals_prefix(v, names@, dep, names@.len() as int);
            if exported {
                lemma_decl_exports_keys(s1, names@, names@.len() as int);
            }
            assert forall|k: int| 0 <= k < item_names(item).len() implies local_keys(out).contains(
                #[trigger] item_names(item)[k],
            ) by {
                assert(item_names(item)[k] == names@[k]@);
                assert(local_keys(s1).contains(names@[k]@));
            }
        },
        ModuleItem::ExportDefaultExpr { init } => {
            let dep = deps_of_expr(Some(init), locals_all);
            let s1 = add_local_v(
                v,
                anon_default_name(),
                ModuleScopedVariableV { depend_on: dep, import_from: None },
            )->Ok_0;
            assert(local_keys(s1) =~= local_keys(v).push(anon_default_name()));
            assert(local_keys(out) == local_keys(s1));
            assert(local_keys(out).contains(anon_default_name())) by {
                assert(local_keys(out).last() == anon_default_name());
            }
        },
        ModuleItem::ExportNamed { specifiers, src } => {
            lemma_specs_keys(
                v,
                specifiers@,
                match src {
                    Some(x) => Some(x@),
                    None => None,
                },
                specifiers@.len() as int,
            );
            assert(local_keys(v).is_prefix_of(local_keys(out)));
        },
        ModuleItem::ExportStarAs { name, src } => {
            match name {
                ExportName::Named(n) => {
                    assert(local_keys(out) =~= local_keys(v));
                },
                ExportName::Default => {},
            }
        },
        ModuleItem::ExportDefaultIdent { .. } => {
            assert(local_keys(out) =~= local_keys(v));
        },
        ModuleItem::ExportStar { .. } => {
            assert(local_keys(out) =~= local_keys(v));
        },
        ModuleItem::SideEffectImport { .. } => {
            assert(local_keys(v).is_prefix_of(local_keys(v)));
        },
        ModuleItem::Stmt { .. } => {
            assert(local_keys(v).is_prefix_of(local_keys(v)));
        },
    }
}

/// A successful fold covers every scope name of the processed items.
pub proof fn lemma_fold_covers(
    path: Seq<char>,
    items: Seq<ModuleItem>,
    locals_all: Seq<Seq<char>>,
    bound: int,
)
    requires
        ex_upto(path, items, locals_all, bound) is Ok,
    ensures
        forall|n: Seq<char>|
            #[trigger] scope_names_upto(items, bound).contains(n) ==> local_keys(
                ex_upto(path, items, locals_all, bound)->Ok_0,
            ).contains(n),
    decreases bound,
{
    if bound <= 0 {
    } else {
        lemma_fold_covers(path, items, locals_all, bound - 1);
        let s1 = ex_upto(path, items, locals_all, bound - 1)->Ok_0;
        let s2 = ex_upto(path, items, locals_all, bound)->Ok_0;
        lemma_item_covers(s1, locals_all, items[bound - 1]);
        assert forall|n: Seq<char>|
            #[trigger] scope_names_upto(items, bound).contains(n) implies local_keys(s2).contains(
            n,
        ) by {
            let sc = scope_names_upto(items, bound);
            let pre = scope_names_upto(items, bound - 1);
            let inames = item_names(items[bound - 1]);
            let w = choose|w: int| 0 <= w < sc.len() && sc[w] == n;
            if w < pre.len() {
                assert(pre[w] == n);
                assert(pre.contains(n));
                lemma_prefix_contains(local_keys(s1), local_keys(s2), n);
            } else {
                assert(inames[w - pre.len()] == n);
                assert(local_keys(s2).contains(inames[w - pre.len()]));
            }
        }
    }
}

/// Every computed dependency is one of the scope names.
pub proof fn lemma_deps_in(refs: Seq<String>, locals: Seq<Seq<char>>, bound: int)
    ensures
        forall|k: int|
            0 <= k < deps_upto(refs, locals, bound).len() ==> locals.contains(
                #[trigger] deps_upto(refs, locals, bound)[k],
            ),
    decreases bound,
{
    if bound > 0 {
        lemma_deps_in(refs, locals, bound - 1);
        let acc = deps_upto(refs, locals, bound - 1);
        let cur = deps_upto(refs, locals, bound);
        assert forall|k: int| 0 <= k < cur.len() implies locals.contains(#[trigger] cur[k]) by {
            if k < acc.len() {
                assert(cur[k] == acc[k]);
            }
        }
    }
}


/// Push one name, tracking the view-level list.
fn push_name(v: &mut Vec<String>, n: String)
    ensures
        final(v)@ == old(v)@.push(n),
        final(v)@.map_values(|s: String| s@) == old(v)@.map_values(|s: String| s@).push(n@),
{
    let ghost oldv = v@;
    let ghost oldm = v@.map_values(|s: String| s@);
    let ghost nv = n@;
    v.push(n);
    proof {
        let m = v@.map_values(|s: String| s@);
        assert(m.len() == oldm.len() + 1);
        assert forall|j: int| 0 <= j < m.len() implies m[j] == oldm.push(nv)[j] by {
            if j < oldm.len() {
                assert(v@[j] == oldv[j]);
            }
        }
        assert(m =~= oldm.push(nv));
    }
}

/// Pass one of the extractor: every module-scoped name the items bind, in
/// item order.
fn collect_scope_names(ast: &ModuleAst) -> (r: Vec<String>)
    ensures
        r@.map_values(|s: String| s@) == scope_names_upto(ast.items@, ast.items@.len() as int),
{
    let ghost items = ast.items@;
    let mut out: Vec<String> = Vec::new();
    let mut i: usize = 0;
    proof {
        assert(out@.map_values(|s: String| s@) =~= scope_names_upto(items, 0));
    }
    while i < ast.items.len()
        invariant
            items == ast.items@,
            0 <= i <= items.len(),
            out@.map_values(|s: String| s@) == scope_names_upto(items, i as int),
        decreases items.len() - i,
    {
        let ghost pre = out@.map_values(|s: String| s@);
        match &ast.items[i] {
            ModuleItem::Import { clauses, .. } => {
                let ghost inames = item_names(items[i as int]);
                let mut k: usize = 0;
                while k < clauses.len()
                    invariant
                        items == ast.items@,
                        0 <= i < items.len(),
                        items[i as int] matches ModuleItem::Import { clauses: cl, .. } && cl
                            == *clauses,
                        inames == item_names(items[i as int]),
                        inames.len() == clauses@.len(),
                        0 <= k <= clauses@.len(),
                        out@.map_values(|s: String| s@) == pre + inames.take(k as int),
                    decreases clauses@.len() - k,
                {
                    let nm = match &clauses[k] {
                        ImportClause::Default { local } => local.clone(),
                        ImportClause::Named { local, .. } => local.clone(),
                        ImportClause::Namespace { local } => local.clone(),
                    };
                    proof {
                        assert(nm@ == clause_local(clauses@[k as int]));
                        assert(inames[k as int] == clause_local(clauses@[k as int]));
                    }
                    push_name(&mut out, nm);
                    proof {
                        assert(pre + inames.take(k as int) + seq![inames[k as int]] =~= pre
                            + inames.take(k + 1));
                    }
                    k += 1;
                }
                proof {
                    assert(inames.take(inames.len() as int) =~= inames);
                }
            },
            ModuleItem::Decl { names, .. } => {
                let ghost inames = item_names(items[i as int]);
                let mut k: usize = 0;
                while k < names.len()
                    invariant
                        items == ast.items@,
                        0 <= i < items.len(),
                        items[i as int] matches ModuleItem::Decl { names: nn, .. } && nn == *names,
                        inames == item_names(items[i as int]),
                        inames.len() == names@.len(),
                        0 <= k <= names@.len(),
                        out@.map_values(|s: String| s@) == pre + inames.take(k as int),
                    decreases names@.len() - k,
                {
                    proof {
                        assert(inames[k as int] == names@[k as int]@);
                    }
                    push_name(&mut out, names[k].clone());
                    proof {
                        assert(pre + inames.take(k as int) + seq![inames[k as int]] =~= pre
                            + inames.take(k + 1));
                    }
                    k += 1;
                }
                proof {
                    assert(inames.take(inames.len() as int) =~= inames);
                }
            },
            ModuleItem::ExportDefaultExpr { .. } => {
                push_name(&mut out, anon_default_symbol_name());
                proof {
                    assert(pre + seq![anon_default_name()] =~= pre + item_names(items[i as int]));
                }
            },
            _ => {
                proof {
                    assert(item_names(items[i as int]) =~= Seq::<Seq<char>>::empty());
                    assert(pre + item_names(items[i as int]) =~= pre);
                }
            },
        }
        proof {
            assert(out@.map_values(|s: String| s@) =~= scope_names_upto(items, i + 1));
        }
        i += 1;
    }
    out
}


/// Extract one module's `SymbolDependency` record from its AST. The
/// outcome is exactly the item fold `extract_spec`; a successful record is
/// well-formed and carries the module's canonical path.
pub fn collect_symbol_dependency(ast: &ModuleAst, module_src: &str) -> (r: Result<
    SymbolDependency,
    ExtractorError,
>)
    requires
        ast.wf(),
    ensures
        match r {
            Ok(rec) => extract_spec(module_src@, ast.items@) == Ok::<
                SymbolDependencyV,
                ExtractorError,
            >(rec@) && rec.wf() && rec.canonical_path@ == module_src@,
            Err(e) => extract_spec(module_src@, ast.items@) == Err::<
                SymbolDependencyV,
                ExtractorError,
            >(e),
        },
{
    let ghost items = ast.items@;
    let ghost path = module_src@;
    let locals_all = collect_scope_names(ast);
    let ghost lall = scope_names_upto(items, items.len() as int);
    let ghost nb = items.len() as int;
    let mut rec = SymbolDependency {
        canonical_path: module_src.to_owned(),
        local_variable_table: Vec::new(),
        named_export_table: Vec::new(),
        default_export: None,
        re_export_star_from: None,
    };
    proof {
        assert(rec@.local_variable_table =~= Seq::<(Seq<char>, ModuleScopedVariableV)>::empty());
        assert(rec@.named_export_table =~= Seq::<(Seq<char>, ModuleExportV)>::empty());
        assert(rec@ =~~= empty_rec(path));
        assert(local_keys(rec@) =~= Seq::<Seq<char>>::empty());
        assert(export_keys(rec@) =~= Seq::<Seq<char>>::empty());
        reveal_strlit("#ANONYMOUS_DEFAULT_EXPORT");
        assert(anon_default_name().len() > 0);
    }
    let mut i: usize = 0;
    while i < ast.items.len()
        invariant
            ast.wf(),
            items == ast.items@,
            path == module_src@,
            nb == items.len() as int,
            lall == scope_names_upto(items, nb),
            locals_all@.map_values(|s: String| s@) == lall,
            0 <= i <= items.len(),
            ex_upto(path, items, lall, i as int) == Ok::<SymbolDependencyV, ExtractorError>(rec@),
            rec@.canonical_path == path,
            builder_wf(rec@, lall),
            anon_default_name().len() > 0,
        decreases items.len() - i,
    {
        let ghost s_in = rec@;
        proof {
            assert(items[i as int].wf());
        }
        match &ast.items[i] {
            ModuleItem::Import { src, clauses } => {
                let ghost srcv = src@;
                let ghost cls = clauses@;
                let mut k: usize = 0;
                while k < clauses.len()
                    invariant
                        ast.wf(),
                        items == ast.items@,
                        path == module_src@,
                        nb == items.len() as int,
                        lall == scope_names_upto(items, nb),
                        0 <= i < items.len(),
                        items[i as int] matches ModuleItem::Import { src: s2, clauses: c2 } && s2@
                            == srcv && c2 == *clauses,
                        src@ == srcv,
                        cls == clauses@,
                        0 <= k <= cls.len(),
                        ex_upto(path, items, lall, i as int) == Ok::<
                            SymbolDependencyV,
                            ExtractorError,
                        >(s_in),
                        ex_clauses_upto(s_in, srcv, cls, k as int) == Ok::<
                            SymbolDependencyV,
                            ExtractorError,
                        >(rec@),
                        builder_wf(rec@, lall),
                        rec@.canonical_path == path,
                        anon_default_name().len() > 0,
                    decreases cls.len() - k,
                {
                    proof {
                        assert(items[i as int].wf());
                        assert(cls[k as int].wf());
                    }
                    let (name, var) = match &clauses[k] {
                        ImportClause::Default { local } => (
                            local.clone(),
                            ModuleScopedVariable {
                                depend_on: None,
                                import_from: Some(
                                    FromOtherModule {
                                        from: src.clone(),
                                        from_type: FromType::Default,
                                    },
                                ),
                            },
                        ),
                        ImportClause::Named { imported, local } => (
                            local.clone(),
                            ModuleScopedVariable {
                                depend_on: None,
                                import_from: Some(
                                    FromOtherModule {
                                        from: src.clone(),
                                        from_type: FromType::Named(imported.clone()),
                                    },
                                ),
                            },
                        ),
                        ImportClause::Namespace { local } => (
                            local.clone(),
                            ModuleScopedVariable {
                                depend_on: None,
                                import_from: Some(
                                    FromOtherModule {
                                        from: src.clone(),
                                        from_type: FromType::Namespace,
                                    },
                                ),
                            },
                        ),
                    };
                    proof {
                        assert(name@ == clause_local(cls[k as int]));
                        assert(var@ == clause_var(cls[k as int], srcv));
                        assert(entry_wf((name@, var@), lall));
                    }
                    match add_local(&mut rec, name, var) {
                        Ok(_) => {},
                        Err(e) => {
                            proof {
                                assert(ex_clauses_upto(s_in, srcv, cls, k + 1) == Err::<
                                    SymbolDependencyV,
                                    ExtractorError,
                                >(e));
                                lemma_clauses_err(s_in, srcv, cls, k + 1, cls.len() as int, e);
                                assert(ex_item(s_in, lall, items[i as int]) == Err::<
                                    SymbolDependencyV,
                                    ExtractorError,
                                >(e));
                                assert(ex_upto(path, items, lall, i + 1) == Err::<
                                    SymbolDependencyV,
                                    ExtractorError,
                                >(e));
                                lemma_ex_upto_err(path, items, lall, i + 1, nb, e);
                            }
                            return Err(e);
                        },
                    }
                    k += 1;
                }
                proof {
                    assert(ex_item(s_in, lall, items[i as int]) == Ok::<
                        SymbolDependencyV,
                        ExtractorError,
                    >(rec@));
                }
            },
            ModuleItem::SideEffectImport { .. } => {
                proof {
                    assert(ex_item(s_in, lall, items[i as int]) == Ok::<
                        SymbolDependencyV,
                        ExtractorError,
                    >(rec@));
                }
            },
            ModuleItem::Stmt { .. } => {
                proof {
                    assert(ex_item(s_in, lall, items[i as int]) == Ok::<
                        SymbolDependencyV,
                        ExtractorError,
                    >(rec@));
                }
            },
            ModuleItem::ExportStar { src } => {
                push_star(&mut rec, src.clone());
                proof {
                    assert(ex_item(s_in, lall, items[i as int]) == Ok::<
                        SymbolDependencyV,
                        ExtractorError,
                    >(rec@));
                }
            },
            ModuleItem::ExportDefaultIdent { name } => {
                match set_default(&mut rec, ModuleExport::Local(name.clone())) {
                    Ok(_) => {},
                    Err(e) => {
                        proof {
                            assert(ex_upto(path, items, lall, i + 1) == Err::<
                                SymbolDependencyV,
                                ExtractorError,
                            >(e));
                            lemma_ex_upto_err(path, items, lall, i + 1, nb, e);
                        }
                        return Err(e);
                    },
                }
                proof {
                    assert(ex_item(s_in, lall, items[i as int]) == Ok::<
                        SymbolDependencyV,
                        ExtractorError,
                    >(rec@));
                }
            },
            ModuleItem::ExportStarAs { name, src } => {
                match name {
                    ExportName::Named(n) => {
                        let e = ModuleExport::ReExportFrom(
                            FromOtherModule { from: src.clone(), from_type: FromType::Namespace },
                        );
                        match add_export(&mut rec, n.clone(), e) {
                            Ok(_) => {},
                            Err(er) => {
                                proof {
                                    assert(ex_upto(path, items, lall, i + 1) == Err::<
                                        SymbolDependencyV,
                                        ExtractorError,
                                    >(er));
                                    lemma_ex_upto_err(path, items, lall, i + 1, nb, er);
                                }
                                return Err(er);
                            },
                        }
                    },
                    ExportName::Default => {
                        proof {
                            assert(ex_upto(path, items, lall, i + 1) == Err::<
                                SymbolDependencyV,
                                ExtractorError,
                            >(ExtractorError::MalformedDefaultExport));
                            lemma_ex_upto_err(
                                path,
                                items,
                                lall,
                                i + 1,
                                nb,
                                ExtractorError::MalformedDefaultExport,
                            );
                        }
                        return Err(ExtractorError::MalformedDefaultExport);
                    },
                }
                proof {
                    assert(ex_item(s_in, lall, items[i as int]) == Ok::<
                        SymbolDependencyV,
                        ExtractorError,
                    >(rec@));
                }
            },
            ModuleItem::ExportDefaultExpr { init } => {
                let dep = compute_deps(init, &locals_all);
                let ghost depv = deps_of_expr(Some(*init), lall);
                proof {
                    lemma_deps_in(init.refs@, lall, init.refs@.len() as int);
                }
                let var = ModuleScopedVariable { depend_on: dep, import_from: None };
                proof {
                    assert(var@ == (ModuleScopedVariableV { depend_on: depv, import_from: None }));
                    assert(entry_wf((anon_default_name(), var@), lall));
                }
                match add_local(&mut rec, anon_default_symbol_name(), var) {
                    Ok(_) => {},
                    Err(e) => {
                        proof {
                            assert(ex_upto(path, items, lall, i + 1) == Err::<
                                SymbolDependencyV,
                                ExtractorError,
                            >(e));
                            lemma_ex_upto_err(path, items, lall, i + 1, nb, e);
                        }
                        return Err(e);
                    },
                }
                match set_default(&mut rec, ModuleExport::Local(anon_default_symbol_name())) {
                    Ok(_) => {},
                    Err(e) => {
                        proof {
                            assert(ex_upto(path, items, lall, i + 1) == Err::<
                                SymbolDependencyV,
                                ExtractorError,
                            >(e));
                            lemma_ex_upto_err(path, items, lall, i + 1, nb, e);
                        }
                        return Err(e);
                    },
                }
                proof {
                    assert(ex_item(s_in, lall, items[i as int]) == Ok::<
                        SymbolDependencyV,
                        ExtractorError,
                    >(rec@));
                }
            },
            ModuleItem::Decl { names, init, exported } => {
                let dep: Option<Vec<String>> = match init {
                    Some(e) => compute_deps(e, &locals_all),
                    None => None,
                };
                let ghost initv: Option<Expr> = match items[i as int] {
                    ModuleItem::Decl { init: iv, .. } => iv,
                    _ => None,
                };
                let ghost depv = deps_of_expr(initv, lall);
                proof {
                    match initv {
                        Some(e) => {
                            lemma_deps_in(e.refs@, lall, e.refs@.len() as int);
                        },
                        None => {},
                    }
                    assert(match dep {
                        Some(d) => depv == Some(d@.map_values(|x: String| x@)),
                        None => depv is None,
                    });
                }
                let ghost nms = names@;
                let mut k: usize = 0;
                while k < names.len()
                    invariant
                        ast.wf(),
                        items == ast.items@,
                        path == module_src@,
                        nb == items.len() as int,
                        lall == scope_names_upto(items, nb),
                        locals_all@.map_values(|s: String| s@) == lall,
                        0 <= i < items.len(),
                        items[i as int] matches ModuleItem::Decl { names: n2, init: i2, exported: e2 }
                            && n2 == *names && i2 == initv,
                        nms == names@,
                        depv == deps_of_expr(initv, lall),
                        match dep {
                            Some(d) => depv == Some(d@.map_values(|x: String| x@)),
                            None => depv is None,
                        },
                        match depv {
                            Some(ds) => all_in(ds, lall),
                            None => true,
                        },
                        0 <= k <= nms.len(),
                        ex_upto(path, items, lall, i as int) == Ok::<
                            SymbolDependencyV,
                            ExtractorError,
                        >(s_in),
                        ex_decl_locals_upto(s_in, nms, depv, k as int) == Ok::<
                            SymbolDependencyV,
                            ExtractorError,
                        >(rec@),
                        builder_wf(rec@, lall),
                        rec@.canonical_path == path,
                        anon_default_name().len() > 0,
                    decreases nms.len() - k,
                {
                    proof {
                        assert(items[i as int].wf());
                        assert(legal_ident(nms[k as int]@));
                    }
                    let var = ModuleScopedVariable {
                        depend_on: match &dep {
                            Some(d) => Some(clone_string_vec(d)),
                            None => None,
                        },
                        import_from: None,
                    };
                    proof {
                        assert(var@ == (ModuleScopedVariableV { depend_on: depv, import_from: None }));
                        assert(entry_wf((nms[k as int]@, var@), lall));
                    }
                    match add_local(&mut rec, names[k].clone(), var) {
                        Ok(_) => {},
                        Err(e) => {
                            proof {
                                assert(ex_decl_locals_upto(s_in, nms, depv, k + 1) == Err::<
                                    SymbolDependencyV,
                                    ExtractorError,
                                >(e));
                                lemma_decl_locals_err(s_in, nms, depv, k + 1, nms.len() as int, e);
                                assert(ex_upto(path, items, lall, i + 1) == Err::<
                                    SymbolDependencyV,
                                    ExtractorError,
                                >(e));
                                lemma_ex_upto_err(path, items, lall, i + 1, nb, e);
                            }
                            return Err(e);
                        },
                    }
                    k += 1;
                }
                let ghost s_mid = rec@;
                if *exported {
                    let mut k2: usize = 0;
                    while k2 < names.len()
                        invariant
                            ast.wf(),
                            items == ast.items@,
                            path == module_src@,
                            nb == items.len() as int,
                            lall == scope_names_upto(items, nb),
                            0 <= i < items.len(),
                            items[i as int] matches ModuleItem::Decl { names: n2, init: i2, exported: e2 }
                                && n2 == *names && i2 == initv && e2,
                            nms == names@,
                            depv == deps_of_expr(initv, lall),
                            0 <= k2 <= nms.len(),
                            ex_upto(path, items, lall, i as int) == Ok::<
                                SymbolDependencyV,
                                ExtractorError,
                            >(s_in),
                            ex_decl_locals_upto(s_in, nms, depv, nms.len() as int) == Ok::<
                                SymbolDependencyV,
                                ExtractorError,
                            >(s_mid),
                            ex_decl_exports_upto(s_mid, nms, k2 as int) == Ok::<
                                SymbolDependencyV,
                                ExtractorError,
                            >(rec@),
                            builder_wf(rec@, lall),
                            rec@.canonical_path == path,
                            anon_default_name().len() > 0,
                        decreases nms.len() - k2,
                    {
                        proof {
                            assert(items[i as int].wf());
                            assert(legal_ident(nms[k2 as int]@));
                        }
                        match add_export(
                            &mut rec,
                            names[k2].clone(),
                            ModuleExport::Local(names[k2].clone()),
                        ) {
                            Ok(_) => {},
                            Err(e) => {
                                proof {
                                    assert(ex_decl_exports_upto(s_mid, nms, k2 + 1) == Err::<
                                        SymbolDependencyV,
                                        ExtractorError,
                                    >(e));
                                    lemma_decl_exports_err(s_mid, nms, k2 + 1, nms.len() as int, e);
                                    assert(ex_upto(path, items, lall, i + 1) == Err::<
                                        SymbolDependencyV,
                                        ExtractorError,
                                    >(e));
                                    lemma_ex_upto_err(path, items, lall, i + 1, nb, e);
                                }
                                return Err(e);
                            },
                        }
                        k2 += 1;
                    }
                }
                proof {
                    assert(ex_item(s_in, lall, items[i as int]) == Ok::<
                        SymbolDependencyV,
                        ExtractorError,
                    >(rec@));
                }
            },
            ModuleItem::ExportNamed { specifiers, src } => {
                let ghost srcv: Option<Seq<char>> = match items[i as int] {
                    ModuleItem::ExportNamed { src: sv, .. } => match sv {
                        Some(x) => Some(x@),
                        None => None,
                    },
                    _ => None,
                };
                let ghost sps = specifiers@;
                let mut k: usize = 0;
                while k < specifiers.len()
                    invariant
                        ast.wf(),
                        items == ast.items@,
                        path == module_src@,
                        nb == items.len() as int,
                        lall == scope_names_upto(items, nb),
                        0 <= i < items.len(),
                        items[i as int] matches ModuleItem::ExportNamed { specifiers: p2, src: s2 }
                            && p2 == *specifiers && (match s2 {
                            Some(x) => srcv == Some(x@),
                            None => srcv is None,
                        }),
                        match src {
                            Some(x) => srcv == Some(x@),
                            None => srcv is None,
                        },
                        sps == specifiers@,
                        0 <= k <= sps.len(),
                        ex_upto(path, items, lall, i as int) == Ok::<
                            SymbolDependencyV,
                            ExtractorError,
                        >(s_in),
                        ex_specs_upto(s_in, sps, srcv, k as int) == Ok::<
                            SymbolDependencyV,
                            ExtractorError,
                        >(rec@),
                        builder_wf(rec@, lall),
                        rec@.canonical_path == path,
                        anon_default_name().len() > 0,
                    decreases sps.len() - k,
                {
                    proof {
                        assert(items[i as int].wf());
                        assert(sps[k as int].orig.wf() && sps[k as int].exported.wf());
                    }
                    let step: Result<(), ExtractorError> = match (&specifiers[k].orig, &specifiers[k].exported, src) {
                        (ExportName::Named(a), ExportName::Named(c), None) => add_export(
                            &mut rec,
                            c.clone(),
                            ModuleExport::Local(a.clone()),
                        ),
                        (ExportName::Named(a), ExportName::Default, None) => set_default(
                            &mut rec,
                            ModuleExport::Local(a.clone()),
                        ),
                        (ExportName::Default, _, None) => Err(
                            ExtractorError::MalformedDefaultExport,
                        ),
                        (ExportName::Named(a), ExportName::Named(c), Some(sx)) => add_export(
                            &mut rec,
                            c.clone(),
                            ModuleExport::ReExportFrom(
                                FromOtherModule {
                                    from: sx.clone(),
                                    from_type: FromType::Named(a.clone()),
                                },
                            ),
                        ),
                        (ExportName::Named(a), ExportName::Default, Some(sx)) => set_default(
                            &mut rec,
                            ModuleExport::ReExportFrom(
                                FromOtherModule {
                                    from: sx.clone(),
                                    from_type: FromType::Named(a.clone()),
                                },
                            ),
                        ),
                        (ExportName::Default, ExportName::Named(c), Some(sx)) => add_export(
                            &mut rec,
                            c.clone(),
                            ModuleExport::ReExportFrom(
                                FromOtherModule { from: sx.clone(), from_type: FromType::Default },
                            ),
                        ),
                        (ExportName::Default, ExportName::Default, Some(sx)) => set_default(
                            &mut rec,
                            ModuleExport::ReExportFrom(
                                FromOtherModule { from: sx.clone(), from_type: FromType::Default },
                            ),
                        ),
                    };
                    match step {
                        Ok(_) => {
                            proof {
                                assert(ex_specs_upto(s_in, sps, srcv, k + 1) == Ok::<
                                    SymbolDependencyV,
                                    ExtractorError,
                                >(rec@));
                            }
                        },
                        Err(e) => {
                            proof {
                                assert(ex_spec_one(
                                    ex_specs_upto(s_in, sps, srcv, k as int)->Ok_0,
                                    sps[k as int],
                                    srcv,
                                ) == Err::<SymbolDependencyV, ExtractorError>(e));
                                assert(ex_specs_upto(s_in, sps, srcv, k + 1) == Err::<
                                    SymbolDependencyV,
                                    ExtractorError,
                                >(e));
                                lemma_specs_err(s_in, sps, srcv, k + 1, sps.len() as int, e);
                                assert(ex_upto(path, items, lall, i + 1) == Err::<
                                    SymbolDependencyV,
                                    ExtractorError,
                                >(e));
                                lemma_ex_upto_err(path, items, lall, i + 1, nb, e);
                            }
                            return Err(e);
                        },
                    }
                    k += 1;
                }
                proof {
                    assert(ex_item(s_in, lall, items[i as int]) == Ok::<
                        SymbolDependencyV,
                        ExtractorError,
                    >(rec@));
                }
            },
        }
        proof {
            assert(ex_upto(path, items, lall, i + 1) == Ok::<SymbolDependencyV, ExtractorError>(
                rec@,
            ));
        }
        i += 1;
    }
    proof {
        assert(extract_spec(path, items) == Ok::<SymbolDependencyV, ExtractorError>(rec@));
        lemma_fold_covers(path, items, lall, nb);
        lemma_builder_wf_record(rec, lall);
    }
    Ok(rec)
}

/// Element-wise copy of a string list.
fn clone_string_vec(src: &Vec<String>) -> (r: Vec<String>)
    ensures
        r@ == src@,
{
    let mut v: Vec<String> = Vec::new();
    let mut i: usize = 0;
    while i < src.len()
        invariant
            0 <= i <= src@.len(),
            v@ =~= src@.take(i as int),
        decreases src@.len() - i,
    {
        v.push(src[i].clone());
        proof {
            assert(v@ =~= src@.take(i + 1));
        }
        i += 1;
    }
    proof {
        assert(src@.take(src@.len() as int) =~= src@);
        assert(v@ =~= src@);
    }
    v
}

/// An error in an inner fold is the outcome of that whole fold.
pub proof fn lemma_clauses_err(
    v: SymbolDependencyV,
    src: Seq<char>,
    clauses: Seq<ImportClause>,
    j: int,
    bound: int,
    e: ExtractorError,
)
    requires
        ex_clauses_upto(v, src, clauses, j) == Err::<SymbolDependencyV, ExtractorError>(e),
        j <= bound,
    ensures
        ex_clauses_upto(v, src, clauses, bound) == Err::<SymbolDependencyV, ExtractorError>(e),
    decreases bound,
{
    if bound > j {
        lemma_clauses_err(v, src, clauses, j, bound - 1, e);
    }
}

pub proof fn lemma_decl_locals_err(
    v: SymbolDependencyV,
    names: Seq<String>,
    dep: Option<Seq<Seq<char>>>,
    j: int,
    bound: int,
    e: ExtractorError,
)
    requires
        ex_decl_locals_upto(v, names, dep, j) == Err::<SymbolDependencyV, ExtractorError>(e),
        j <= bound,
    ensures
        ex_decl_locals_upto(v, names, dep, bound) == Err::<SymbolDependencyV, ExtractorError>(e),
    decreases bound,
{
    if bound > j {
        lemma_decl_locals_err(v, names, dep, j, bound - 1, e);
    }
}

pub proof fn lemma_decl_exports_err(
    v: SymbolDependencyV,
    names: Seq<String>,
    j: int,
    bound: int,
    e: ExtractorError,
)
    requires
        ex_decl_exports_upto(v, names, j) == Err::<SymbolDependencyV, ExtractorError>(e),
        j <= bound,
    ensures
        ex_decl_exports_upto(v, names, bound) == Err::<SymbolDependencyV, ExtractorError>(e),
    decreases bound,
{
    if bound > j {
        lemma_decl_exports_err(v, names, j, bound - 1, e);
    }
}

pub proof fn lemma_specs_err(
    v: SymbolDependencyV,
    specs: Seq<ExportSpecifier>,
    src: Option<Seq<char>>,
    j: int,
    bound: int,
    e: ExtractorError,
)
    requires
        ex_specs_upto(v, specs, src, j) == Err::<SymbolDependencyV, ExtractorError>(e),
        j <= bound,
    ensures
        ex_specs_upto(v, specs, src, bound) == Err::<SymbolDependencyV, ExtractorError>(e),
    decreases bound,
{
    if bound > j {
        lemma_specs_err(v, specs, src, j, bound - 1, e);
    }
}

} // verus!
