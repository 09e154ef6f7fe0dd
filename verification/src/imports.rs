//! The import-specifier model: default, named and namespace specifiers, the
//! local binding name each one carries, and the metadata sentinel test.
use vstd::prelude::*;
use vstd::string::StringExecFns;

verus! {

/// One import specifier, as it appears in a module import statement.
pub enum ImportSpecifier {
    DefaultImport { local: String },
    Named { local: String, imported: Option<String> },
    Namespace { local: String },
}

/// The mathematical shape of a specifier: its strings as character sequences.
pub enum SpecifierModel {
    DefaultImport { local: Seq<char> },
    Named { local: Seq<char>, imported: Option<Seq<char>> },
    Namespace { local: Seq<char> },
}

impl View for ImportSpecifier {
    type V = SpecifierModel;

    open spec fn view(&self) -> SpecifierModel {
        match self {
            ImportSpecifier::DefaultImport { local } => SpecifierModel::DefaultImport {
                local: local@,
            },
            ImportSpecifier::Named { local, imported } => SpecifierModel::Named {
                local: local@,
                imported: match imported {
                    Option::Some(s) => Option::Some(s@),
                    Option::None => Option::None,
                },
            },
            ImportSpecifier::Namespace { local } => SpecifierModel::Namespace { local: local@ },
        }
    }
}

impl DeepView for ImportSpecifier {
    type V = SpecifierModel;

    open spec fn deep_view(&self) -> SpecifierModel {
        self.view()
    }
}

/// The local binding name of a specifier.
pub open spec fn local_model(s: SpecifierModel) -> Seq<char> {
    match s {
        SpecifierModel::DefaultImport { local } => local,
        SpecifierModel::Named { local, .. } => local,
        SpecifierModel::Namespace { local } => local,
    }
}

/// The reserved external name that opts a specifier into metadata mode.
pub open spec fn import_meta_name() -> Seq<char> {
    "_importMeta"@
}

/// A specifier is a metadata specifier iff it is a named specifier whose
/// external name is the reserved sentinel.
pub open spec fn is_meta_model(s: SpecifierModel) -> bool {
    match s {
        SpecifierModel::Named { imported: Option::Some(ext), .. } => ext == import_meta_name(),
        _ => false,
    }
}

/// The same specifier kind with its local binding replaced by `ph`; a named
/// specifier keeps its external name.
pub open spec fn with_local(s: SpecifierModel, ph: Seq<char>) -> SpecifierModel {
    match s {
        SpecifierModel::DefaultImport { .. } => SpecifierModel::DefaultImport { local: ph },
        SpecifierModel::Named { imported, .. } => SpecifierModel::Named { local: ph, imported },
        SpecifierModel::Namespace { .. } => SpecifierModel::Namespace { local: ph },
    }
}

impl ImportSpecifier {
    /// The binding name visible in user code, whatever the specifier's kind.
    pub fn get_local_name(&self) -> (r: String)
        ensures
            r@ == local_model(self@),
    {
        match self {
            ImportSpecifier::DefaultImport { local } => local.clone(),
            ImportSpecifier::Named { local, .. } => local.clone(),
            ImportSpecifier::Namespace { local } => local.clone(),
        }
    }

    /// Whether this specifier selects metadata mode: true iff it is a named
    /// specifier whose external name equals the sentinel exactly.
    pub fn is_meta_decl(&self) -> (r: bool)
        ensures
            r == is_meta_model(self@),
    {
        match self {
            ImportSpecifier::Named { imported: Option::Some(ext), .. } => {
                let sentinel = String::from_str("_importMeta");
                *ext == sentinel
            },
            _ => false,
        }
    }

    /// A copy of this specifier whose local name is the placeholder `ph`.
    pub fn with_placeholder(&self, ph: String) -> (r: ImportSpecifier)
        ensures
            r@ == with_local(self@, ph@),
    {
        match self {
            ImportSpecifier::DefaultImport { .. } => ImportSpecifier::DefaultImport { local: ph },
            ImportSpecifier::Named { imported, .. } => ImportSpecifier::Named {
                local: ph,
                imported: match imported {
                    Option::Some(s) => Option::Some(s.clone()),
                    Option::None => Option::None,
                },
            },
            ImportSpecifier::Namespace { .. } => ImportSpecifier::Namespace { local: ph },
        }
    }
}

} // verus!
