//! The module AST, at the granularity the analysis reads: top-level
//! declarations and import/export forms, with each initializer abstracted
//! to the identifiers it references, the calls it makes, and the route
//! elements it contains. The AST front-end that produces these values from
//! source text is an external collaborator; its grammar guarantees that
//! every binding identifier is non-empty and cannot begin with `#`, which
//! `wf` below records.

use vstd::prelude::*;
use crate::model::anon_default_name;

verus! {

/// A legal source identifier for our purposes: non-empty and distinct from
/// the reserved anonymous-default name.
pub open spec fn legal_ident(n: Seq<char>) -> bool {
    n.len() > 0 && n != anon_default_name()
}

/// A call site: the callee identifier and the first argument when it is a
/// string literal.
pub struct CallExpr {
    pub callee: String,
    pub string_arg: Option<String>,
}

/// An attribute of a route element: a string literal or an expression,
/// abstracted to the identifiers it references.
pub enum AttrValue {
    Str(String),
    Idents(Vec<String>),
}

pub struct Attr {
    pub name: String,
    pub value: AttrValue,
}

/// A route-declaration-shaped element.
pub struct RouteElement {
    pub element: String,
    pub attrs: Vec<Attr>,
}

/// An expression, abstracted to what the analysis reads of it.
pub struct Expr {
    pub refs: Vec<String>,
    pub calls: Vec<CallExpr>,
    pub routes: Vec<RouteElement>,
}

/// One clause of an import statement.
pub enum ImportClause {
    Default { local: String },
    Named { imported: String, local: String },
    Namespace { local: String },
}

/// A name position in an export specifier: a written identifier or the
/// keyword `default`.
pub enum ExportName {
    Named(String),
    Default,
}

/// One specifier of an `export { … }` statement: the source-side name and the
/// exported name.
pub struct ExportSpecifier {
    pub orig: ExportName,
    pub exported: ExportName,
}

/// A top-level module item.
pub enum ModuleItem {
    /// `import … from 'src'`.
    Import { src: String, clauses: Vec<ImportClause> },
    /// Bare `import 'src'`: side effect only, no symbol.
    SideEffectImport { src: String },
    /// A declaration binding `names`, optionally initialized, optionally
    /// written with `export`.
    Decl { names: Vec<String>, init: Option<Expr>, exported: bool },
    /// `export default foo`.
    ExportDefaultIdent { name: String },
    /// `export default <expr>` with a non-identifier expression.
    ExportDefaultExpr { init: Expr },
    /// `export { … }`, with or without a `from` source.
    ExportNamed { specifiers: Vec<ExportSpecifier>, src: Option<String> },
    /// `export * as name from 'src'`.
    ExportStarAs { name: ExportName, src: String },
    /// `export * from 'src'`.
    ExportStar { src: String },
    /// Any other top-level statement, kept for its expression.
    Stmt { expr: Expr },
}

pub struct ModuleAst {
    pub items: Vec<ModuleItem>,
}

impl ExportName {
    pub open spec fn wf(&self) -> bool {
        match self {
            ExportName::Named(n) => legal_ident(n@),
            ExportName::Default => true,
        }
    }
}

impl ModuleItem {
    /// Every binding identifier of the item is legal.
    pub open spec fn wf(&self) -> bool {
        match self {
            ModuleItem::Import { src, clauses } => forall|i: int|
                0 <= i < clauses@.len() ==> (#[trigger] clauses@[i]).wf(),
            ModuleItem::SideEffectImport { .. } => true,
            ModuleItem::Decl { names, .. } => forall|i: int|
                0 <= i < names@.len() ==> legal_ident((#[trigger] names@[i])@),
            ModuleItem::ExportDefaultIdent { name } => legal_ident(name@),
            ModuleItem::ExportDefaultExpr { .. } => true,
            ModuleItem::ExportNamed { specifiers, .. } => forall|i: int|
                0 <= i < specifiers@.len() ==> (#[trigger] specifiers@[i]).orig.wf()
                    && specifiers@[i].exported.wf(),
            ModuleItem::ExportStarAs { name, .. } => name.wf(),
            ModuleItem::ExportStar { .. } => true,
            ModuleItem::Stmt { .. } => true,
        }
    }
}

impl ImportClause {
    pub open spec fn wf(&self) -> bool {
        match self {
            ImportClause::Default { local } => legal_ident(local@),
            ImportClause::Named { imported, local } => legal_ident(imported@) && legal_ident(
                local@,
            ),
            ImportClause::Namespace { local } => legal_ident(local@),
        }
    }
}

impl ModuleAst {
    pub open spec fn wf(&self) -> bool {
        forall|i: int| 0 <= i < self.items@.len() ==> (#[trigger] self.items@[i]).wf()
    }
}

} // verus!
