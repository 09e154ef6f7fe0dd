//! Expansion of glob imports: rewrites one module import statement whose
//! source path contains glob wildcards into one concrete import per matching
//! file, plus constant array declarations that collect the imported values
//! (or path metadata) under the original binding names.
pub mod idgen;
pub mod laws;
pub mod imports;
pub mod paths;
pub mod strutil;
pub mod transformer;
pub mod utils;

use crate::idgen::dec_digits;
use crate::idgen::digits;
use crate::paths::get_paths_model;
use crate::paths::ImportPaths;
use crate::strutil::collapse_slashes;
use crate::strutil::collapse_slashes_exec;
use crate::strutil::strip_trailing_slashes;
use crate::strutil::strip_trailing_slashes_exec;
use crate::transformer::ImportModel;
use crate::transformer::ImportStatement;
use crate::transformer::TransformedStatements;
use crate::utils::ConstArrayDecl;
use crate::utils::DeclModel;
use vstd::prelude::*;
use vstd::string::StringExecFns;

verus! {

/// The per-file transform context: the project root, the path of the file
/// being transformed, and the monotonic placeholder counter that survives
/// across the file's import statements.
pub struct ImportGlobArrayPlugin {
    pub cwd: String,
    pub filename: String,
    pub id_counter: usize,
}

/// One replacement statement: a generated import, or a rendered constant
/// array declaration.
pub enum ModuleItem {
    Import(ImportStatement),
    ConstArray(ConstArrayDecl),
}

/// The mathematical shape of a replacement statement.
pub enum ModuleItemModel {
    Import(ImportModel),
    ConstArray(DeclModel),
}

impl DeepView for ModuleItem {
    type V = ModuleItemModel;

    open spec fn deep_view(&self) -> ModuleItemModel {
        match self {
            ModuleItem::Import(i) => ModuleItemModel::Import(i.deep_view()),
            ModuleItem::ConstArray(d) => ModuleItemModel::ConstArray(d.deep_view()),
        }
    }
}

/// The replacement list in its contractual order: all generated imports,
/// then all value declarations, then all metadata declarations.
pub open spec fn module_items_model(
    imports: Seq<ImportModel>,
    names: Seq<DeclModel>,
    meta: Seq<DeclModel>,
) -> Seq<ModuleItemModel> {
    imports.map_values(|i: ImportModel| ModuleItemModel::Import(i)) + names.map_values(
        |d: DeclModel| ModuleItemModel::ConstArray(d),
    ) + meta.map_values(|d: DeclModel| ModuleItemModel::ConstArray(d))
}

impl ImportGlobArrayPlugin {
    /// A fresh per-file context; the placeholder counter starts at zero, the
    /// project root is kept in normal form (repeated separators collapsed
    /// and trailing ones removed, a bare root staying `/`), and the file
    /// path is kept with repeated separators collapsed.
    pub fn new(cwd: String, filename: String) -> (r: Self)
        ensures
            r.cwd@ == strip_trailing_slashes(collapse_slashes(cwd@)),
            r.filename@ == collapse_slashes(filename@),
            r.id_counter == 0,
    {
        ImportGlobArrayPlugin {
            cwd: strip_trailing_slashes_exec(collapse_slashes_exec(cwd.as_str())),
            filename: collapse_slashes_exec(filename.as_str()),
            id_counter: 0,
        }
    }

    /// The next placeholder identifier: the prefix followed by the counter,
    /// which increments on every call and so never repeats within a file.
    pub fn next_id(&mut self, starting_id: &str) -> (r: String)
        requires
            old(self).id_counter < usize::MAX,
        ensures
            final(self).id_counter == old(self).id_counter + 1,
            final(self).cwd == old(self).cwd,
            final(self).filename == old(self).filename,
            r@ == starting_id@ + digits(final(self).id_counter as nat),
    {
        self.id_counter = self.id_counter + 1;
        let mut s = String::from_str(starting_id);
        s.append(dec_digits(self.id_counter).as_str());
        s
    }

    /// Resolve one matched path against this context's project root; `None`
    /// means the match is silently dropped. The import path is made relative
    /// to the importing file's directory and forced to be dot-relative.
    pub fn get_paths(&self, path: &String) -> (r: Option<ImportPaths>)
        ensures
            match r {
                Option::None => get_paths_model(self.cwd@, self.filename@, path@) is None,
                Option::Some(p) => get_paths_model(self.cwd@, self.filename@, path@) == Some(p@),
            },
    {
        crate::paths::resolve_match(&self.cwd, &self.filename, path)
    }

    /// Flatten a transform result into the replacement statement list, in the
    /// contractual order: imports, then value declarations, then metadata
    /// declarations. `None` flattens to the empty list.
    pub fn build_module_items(&self, transformed: Option<TransformedStatements>) -> (r: Vec<
        ModuleItem,
    >)
        ensures
            match transformed {
                Option::None => r@.len() == 0,
                Option::Some(t) => r.deep_view() == module_items_model(
                    t.imports.deep_view(),
                    t.names.deep_view(),
                    t.meta.deep_view(),
                ),
            },
    {
        let mut results: Vec<ModuleItem> = Vec::new();
        match transformed {
            Option::None => results,
            Option::Some(t) => {
                let TransformedStatements { imports, names, meta } = t;
                let ghost i0 = imports.deep_view();
                let ghost n0 = names.deep_view();
                let ghost m0 = meta.deep_view();
                let mut imports = imports;
                let mut names = names;
                let mut meta = meta;
                while imports.len() > 0
                    invariant
                        results.deep_view() + imports.deep_view().map_values(
                            |i: ImportModel| ModuleItemModel::Import(i),
                        ) =~= i0.map_values(|i: ImportModel| ModuleItemModel::Import(i)),
                    decreases imports@.len(),
                {
                    let ghost pre = imports.deep_view();
                    let item = imports.remove(0);
                    results.push(ModuleItem::Import(item));
                    proof {
                        assert(imports.deep_view() =~= pre.drop_first());
                        assert(imports.deep_view().map_values(
                            |i: ImportModel| ModuleItemModel::Import(i),
                        ) =~= pre.map_values(
                            |i: ImportModel| ModuleItemModel::Import(i),
                        ).drop_first());
                    }
                }
                while names.len() > 0
                    invariant
                        results.deep_view() + names.deep_view().map_values(
                            |d: DeclModel| ModuleItemModel::ConstArray(d),
                        ) =~= i0.map_values(|i: ImportModel| ModuleItemModel::Import(i))
                            + n0.map_values(|d: DeclModel| ModuleItemModel::ConstArray(d)),
                    decreases names@.len(),
                {
                    let ghost pre = names.deep_view();
                    let item = names.remove(0);
                    results.push(ModuleItem::ConstArray(item));
                    proof {
                        assert(names.deep_view() =~= pre.drop_first());
                        assert(names.deep_view().map_values(
                            |d: DeclModel| ModuleItemModel::ConstArray(d),
                        ) =~= pre.map_values(
                            |d: DeclModel| ModuleItemModel::ConstArray(d),
                        ).drop_first());
                    }
                }
                while meta.len() > 0
                    invariant
                        results.deep_view() + meta.deep_view().map_values(
                            |d: DeclModel| ModuleItemModel::ConstArray(d),
                        ) =~= i0.map_values(|i: ImportModel| ModuleItemModel::Import(i))
                            + n0.map_values(|d: DeclModel| ModuleItemModel::ConstArray(d))
                            + m0.map_values(|d: DeclModel| ModuleItemModel::ConstArray(d)),
                    decreases meta@.len(),
                {
                    let ghost pre = meta.deep_view();
                    let item = meta.remove(0);
                    results.push(ModuleItem::ConstArray(item));
                    proof {
                        assert(meta.deep_view() =~= pre.drop_first());
                        assert(meta.deep_view().map_values(
                            |d: DeclModel| ModuleItemModel::ConstArray(d),
                        ) =~= pre.map_values(
                            |d: DeclModel| ModuleItemModel::ConstArray(d),
                        ).drop_first());
                    }
                }
                proof {
                    assert(results.deep_view() =~= module_items_model(i0, n0, m0));
                }
                results
            },
        }
    }
}

} // verus!
