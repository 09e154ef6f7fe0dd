//! The path resolver: turning a matched filesystem path into the pair of an
//! absolute path re-rooted under the project root and a dot-relative import
//! path, and building the sandboxed glob search path for an import pattern.
use crate::strutil::collapse_slashes;
use crate::strutil::dirname;
use crate::strutil::dirname_exec;
use crate::strutil::join_path;
use crate::strutil::join_path_exec;
use crate::strutil::path_has_prefix;
use crate::strutil::path_prefix_exec;
use crate::strutil::relative_to_dir;
use crate::strutil::relative_to_dir_exec;
use crate::strutil::starts_with;
use crate::strutil::str_starts_with;
use crate::strutil::strip_path_prefix;
use crate::strutil::strip_path_prefix_exec;
use vstd::prelude::*;
use vstd::string::StrSliceExecFns;
use vstd::string::StringExecFns;

verus! {

/// A resolved pair of paths for one glob match.
pub struct ImportPaths {
    pub absolute_path: String,
    pub imported_path: String,
}

/// The mathematical shape of a resolved pair.
pub struct PathsModel {
    pub absolute_path: Seq<char>,
    pub imported_path: Seq<char>,
}

impl View for ImportPaths {
    type V = PathsModel;

    open spec fn view(&self) -> PathsModel {
        PathsModel { absolute_path: self.absolute_path@, imported_path: self.imported_path@ }
    }
}

impl DeepView for ImportPaths {
    type V = PathsModel;

    open spec fn deep_view(&self) -> PathsModel {
        self.view()
    }
}

/// The virtual mount under which the glob search path is rooted.
pub open spec fn cwd_marker() -> Seq<char> {
    "/cwd"@
}

/// What `path_clean::clean` returns for a path: its lexical normal form.
pub uninterp spec fn cleaned(path: Seq<char>) -> Seq<char>;

/// Relies on `path_clean::clean`: lexical path normalization (collapsing
/// repeated separators and `.` and `..` elements) that reads no filesystem
/// state, so its result depends on the input characters alone.
#[verifier::external_body]
pub fn clean_path(path: &String) -> (r: String)
    ensures
        r@ == cleaned(path@),
{
    path_clean::clean(path.as_str()).to_string_lossy().into_owned()
}

/// How one matched path resolves against the project root `cwd` for the
/// importing file `filename`: collapse repeated separators (so the string
/// model agrees with component-level path semantics), strip the virtual
/// mount if present, and re-root under `cwd`. `None` when the match does not
/// lie under the root. `imported_path` is the match's path relative to the
/// importing file's directory, forced to begin with `./` unless it already
/// begins with `./` or `../`.
pub open spec fn get_paths_model(cwd: Seq<char>, filename: Seq<char>, path: Seq<char>) -> Option<
    PathsModel,
> {
    let p = collapse_slashes(path);
    let stripped = if path_has_prefix(p, cwd_marker()) {
        strip_path_prefix(p, cwd_marker())
    } else {
        p
    };
    let joined = join_path(cwd, stripped);
    if path_has_prefix(joined, cwd) {
        let rel = strip_path_prefix(joined, cwd);
        let abs = join_path(cwd, rel);
        let fdir = match dirname(filename) {
            Option::None => cwd,
            Option::Some(d) => d,
        };
        let r = relative_to_dir(fdir, abs);
        let imported = if starts_with(r, "./"@) || starts_with(r, "../"@) {
            r
        } else {
            "./"@ + r
        };
        Some(PathsModel { absolute_path: abs, imported_path: imported })
    } else {
        None
    }
}

/// The sandboxed glob search path for the import pattern `src` of the file
/// `filename`: the pattern joined onto the file's directory and normalized;
/// `None` when the normalized path escapes the project root `cwd`.
pub open spec fn glob_path_model(filename: Seq<char>, cwd: Seq<char>, src: Seq<char>) -> Option<
    Seq<char>,
> {
    match dirname(filename) {
        None => None,
        Some(dir) => {
            let g = cleaned(join_path(dir, src));
            if path_has_prefix(g, cwd) {
                Some(join_path(cwd_marker(), strip_path_prefix(g, cwd)))
            } else {
                None
            }
        },
    }
}

/// Resolve one matched path against the root `cwd` for the importing file
/// `filename`, as `get_paths_model` describes; `None` means the match is
/// dropped.
pub fn resolve_match(cwd: &String, filename: &String, path: &String) -> (r: Option<ImportPaths>)
    ensures
        match r {
            Option::None => get_paths_model(cwd@, filename@, path@) is None,
            Option::Some(p) => get_paths_model(cwd@, filename@, path@) == Some(p@),
        },
{
    let collapsed = crate::strutil::collapse_slashes_exec(path.as_str());
    let stripped: String = if path_prefix_exec(collapsed.as_str(), "/cwd") {
        strip_path_prefix_exec(collapsed.as_str(), "/cwd")
    } else {
        collapsed
    };
    let joined = join_path_exec(cwd.as_str(), stripped.as_str());
    if path_prefix_exec(joined.as_str(), cwd.as_str()) {
        let rel = strip_path_prefix_exec(joined.as_str(), cwd.as_str());
        let abs = join_path_exec(cwd.as_str(), rel.as_str());
        let fdir: String = match dirname_exec(filename.as_str()) {
            Option::None => cwd.clone(),
            Option::Some(d) => d,
        };
        let r = relative_to_dir_exec(fdir.as_str(), abs.as_str());
        let imported: String = if str_starts_with(r.as_str(), "./") || str_starts_with(
            r.as_str(),
            "../",
        ) {
            r
        } else {
            let mut s = String::from_str("./");
            s.append(r.as_str());
            s
        };
        Some(ImportPaths { absolute_path: abs, imported_path: imported })
    } else {
        None
    }
}

} // verus!
