//! The per-module data model: symbol variants, import/export descriptions,
//! and the `SymbolDependency` record that the extractor produces for each
//! module.

use vstd::prelude::*;

verus! {

/// Name given to the synthetic local variable that stands for an anonymous
/// default export (`export default <expr>`). It begins with `#`, which no
/// identifier in the source grammar may start with, so it can never collide
/// with a user-written name.
pub open spec fn anon_default_name() -> Seq<char> {
    "#ANONYMOUS_DEFAULT_EXPORT"@
}

/// Executable copy of [`anon_default_name`].
pub fn anon_default_symbol_name() -> (r: String)
    ensures
        r@ == anon_default_name(),
{
    "#ANONYMOUS_DEFAULT_EXPORT".to_owned()
}

/// The three kinds of module-scoped symbol.
#[derive(PartialEq, Eq, Structural, Clone, Copy, Debug)]
pub enum SymbolVariant {
    LocalVariable,
    NamedExport,
    DefaultExport,
}

/// How a symbol is sourced from another module.
pub enum FromType {
    /// `import { name }` / `export { name } from`.
    Named(String),
    /// The other module's default export.
    Default,
    /// `* as X`: the bundle of the other module's named exports.
    Namespace,
}

/// An import or re-export source: the written specifier plus the form.
pub struct FromOtherModule {
    pub from: String,
    pub from_type: FromType,
}

/// What a module export refers to.
pub enum ModuleExport {
    /// A local symbol of the same module.
    Local(String),
    /// Sourced from another module's specifier.
    ReExportFrom(FromOtherModule),
}

/// A module-scoped local symbol: the locals it depends on, and where it is
/// imported from, if anywhere.
pub struct ModuleScopedVariable {
    pub depend_on: Option<Vec<String>>,
    pub import_from: Option<FromOtherModule>,
}

/// The record the extractor produces for one module. Immutable once built.
pub struct SymbolDependency {
    pub canonical_path: String,
    pub local_variable_table: Vec<(String, ModuleScopedVariable)>,
    pub named_export_table: Vec<(String, ModuleExport)>,
    pub default_export: Option<ModuleExport>,
    pub re_export_star_from: Option<Vec<String>>,
}

impl FromType {
    /// Spec view of the carried name, for the `Named` case.
    pub open spec fn named_name(&self) -> Seq<char> {
        match self {
            FromType::Named(n) => n@,
            _ => Seq::empty(),
        }
    }

    /// A legal sourced name: a `Named` payload is a user identifier, so it
    /// is non-empty and distinct from the reserved anonymous-default name.
    pub open spec fn wf(&self) -> bool {
        match self {
            FromType::Named(n) => n@.len() > 0 && n@ != anon_default_name(),
            _ => true,
        }
    }
}

impl ModuleExport {
    pub open spec fn wf(&self) -> bool {
        match self {
            ModuleExport::Local(n) => n@.len() > 0,
            ModuleExport::ReExportFrom(f) => f.from_type.wf(),
        }
    }

    /// The statically-impossible shape: a default export re-exporting a
    /// namespace.
    pub open spec fn from_type_is_namespace(&self) -> bool {
        match self {
            ModuleExport::ReExportFrom(f) => matches!(f.from_type, FromType::Namespace),
            _ => false,
        }
    }
}

impl SymbolDependency {
    /// Keys of the local-variable table.
    pub open spec fn local_names(&self) -> Seq<Seq<char>> {
        self.local_variable_table@.map_values(|p: (String, ModuleScopedVariable)| p.0@)
    }

    /// Keys of the named-export table.
    pub open spec fn export_names(&self) -> Seq<Seq<char>> {
        self.named_export_table@.map_values(|p: (String, ModuleExport)| p.0@)
    }

    /// Record well-formedness, as the extractor guarantees it:
    /// - local keys are distinct and non-empty;
    /// - named-export keys are distinct, non-empty, and never the reserved
    ///   anonymous-default name;
    /// - every `depend_on` name is a key of the same local table;
    /// - sourced names are legal identifiers;
    /// - the default export never re-exports a namespace.
    pub open spec fn wf(&self) -> bool {
        &&& forall|i: int, j: int|
            0 <= i < j < self.local_names().len() ==> self.local_names()[i] != self.local_names()[j]
        &&& forall|i: int| 0 <= i < self.local_names().len() ==> self.local_names()[i].len() > 0
        &&& forall|i: int, j: int|
            0 <= i < j < self.export_names().len() ==> self.export_names()[i]
                != self.export_names()[j]
        &&& forall|i: int|
            0 <= i < self.export_names().len() ==> self.export_names()[i].len() > 0
                && self.export_names()[i] != anon_default_name()
        &&& forall|i: int|
            0 <= i < self.local_variable_table@.len() ==> (
            #[trigger] self.local_variable_table@[i].1).wf(self.local_names())
        &&& forall|i: int|
            0 <= i < self.named_export_table@.len() ==> (
            #[trigger] self.named_export_table@[i].1).wf()
        &&& match self.default_export {
            Some(e) => e.wf() && !e.from_type_is_namespace(),
            None => true,
        }
    }
}

impl ModuleScopedVariable {
    /// Every depended-on name is a local of the same module, and a sourced
    /// name is a legal identifier.
    pub open spec fn wf(&self, locals: Seq<Seq<char>>) -> bool {
        &&& match self.depend_on {
            Some(ds) => forall|i: int| 0 <= i < ds@.len() ==> locals.contains(#[trigger] ds@[i]@),
            None => true,
        }
        &&& match self.import_from {
            Some(f) => f.from_type.wf(),
            None => true,
        }
    }
}


/// Spec-level image of [`FromType`].
pub enum FromTypeV {
    Named(Seq<char>),
    Default,
    Namespace,
}

/// Spec-level image of [`FromOtherModule`].
pub struct FromOtherModuleV {
    pub from: Seq<char>,
    pub from_type: FromTypeV,
}

/// Spec-level image of [`ModuleExport`].
pub enum ModuleExportV {
    Local(Seq<char>),
    ReExportFrom(FromOtherModuleV),
}

/// Spec-level image of [`ModuleScopedVariable`].
pub struct ModuleScopedVariableV {
    pub depend_on: Option<Seq<Seq<char>>>,
    pub import_from: Option<FromOtherModuleV>,
}

/// Spec-level image of [`SymbolDependency`].
pub struct SymbolDependencyV {
    pub canonical_path: Seq<char>,
    pub local_variable_table: Seq<(Seq<char>, ModuleScopedVariableV)>,
    pub named_export_table: Seq<(Seq<char>, ModuleExportV)>,
    pub default_export: Option<ModuleExportV>,
    pub re_export_star_from: Option<Seq<Seq<char>>>,
}

impl View for FromType {
    type V = FromTypeV;

    open spec fn view(&self) -> FromTypeV {
        match self {
            FromType::Named(n) => FromTypeV::Named(n@),
            FromType::Default => FromTypeV::Default,
            FromType::Namespace => FromTypeV::Namespace,
        }
    }
}

impl View for FromOtherModule {
    type V = FromOtherModuleV;

    open spec fn view(&self) -> FromOtherModuleV {
        FromOtherModuleV { from: self.from@, from_type: self.from_type@ }
    }
}

impl View for ModuleExport {
    type V = ModuleExportV;

    open spec fn view(&self) -> ModuleExportV {
        match self {
            ModuleExport::Local(n) => ModuleExportV::Local(n@),
            ModuleExport::ReExportFrom(f) => ModuleExportV::ReExportFrom(f@),
        }
    }
}

impl View for ModuleScopedVariable {
    type V = ModuleScopedVariableV;

    open spec fn view(&self) -> ModuleScopedVariableV {
        ModuleScopedVariableV {
            depend_on: match self.depend_on {
                Some(ds) => Some(ds@.map_values(|d: String| d@)),
                None => None,
            },
            import_from: match self.import_from {
                Some(f) => Some(f@),
                None => None,
            },
        }
    }
}

impl View for SymbolDependency {
    type V = SymbolDependencyV;

    open spec fn view(&self) -> SymbolDependencyV {
        SymbolDependencyV {
            canonical_path: self.canonical_path@,
            local_variable_table: self.local_variable_table@.map_values(
                |p: (String, ModuleScopedVariable)| (p.0@, p.1@),
            ),
            named_export_table: self.named_export_table@.map_values(
                |p: (String, ModuleExport)| (p.0@, p.1@),
            ),
            default_export: match self.default_export {
                Some(e) => Some(e@),
                None => None,
            },
            re_export_star_from: match self.re_export_star_from {
                Some(l) => Some(l@.map_values(|x: String| x@)),
                None => None,
            },
        }
    }
}

} // verus!
