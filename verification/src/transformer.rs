//! The transform engine: expands one eligible glob import statement into
//! concrete import statements plus aggregation declarations, pinned to a
//! mathematical fold over the match list.
use crate::idgen::digits;
use crate::imports::is_meta_model;
use crate::imports::local_model;
use crate::imports::with_local;
use crate::imports::ImportSpecifier;
use crate::imports::SpecifierModel;
use crate::paths::get_paths_model;
use crate::paths::glob_path_model;
use crate::paths::PathsModel;
use crate::strutil::dirname_exec;
use crate::strutil::join_path_exec;
use crate::strutil::path_prefix_exec;
use crate::strutil::strip_path_prefix_exec;
use crate::utils::decls_of;
use crate::utils::get_import_map_expr;
use crate::utils::to_var_decls;
use crate::utils::upsert_map;
use crate::utils::upsert_model;
use crate::utils::AggGroup;
use crate::utils::ArrayElement;
use crate::utils::ConstArrayDecl;
use crate::utils::ElemModel;
use crate::utils::GroupModel;
use crate::ImportGlobArrayPlugin;
use vstd::prelude::*;
use vstd::string::StrSliceExecFns;
use vstd::string::StringExecFns;

verus! {

/// One generated import statement: a dot-relative source and the specifier
/// list minted for one matched file.
pub struct ImportStatement {
    pub src: String,
    pub specifiers: Vec<ImportSpecifier>,
}

/// The mathematical shape of a generated import statement.
pub struct ImportModel {
    pub src: Seq<char>,
    pub specifiers: Seq<SpecifierModel>,
}

impl DeepView for ImportStatement {
    type V = ImportModel;

    open spec fn deep_view(&self) -> ImportModel {
        ImportModel { src: self.src@, specifiers: self.specifiers.deep_view() }
    }
}

/// The full replacement for one glob import statement: the generated imports
/// in match order, then the rendered value groups, then the metadata groups.
pub struct TransformedStatements {
    pub imports: Vec<ImportStatement>,
    pub meta: Vec<ConstArrayDecl>,
    pub names: Vec<ConstArrayDecl>,
}

/// The engine state of the fold: the placeholder counter, the generated
/// imports so far, and the two aggregation maps.
pub struct StateModel {
    pub counter: nat,
    pub imports: Seq<ImportModel>,
    pub names: Seq<GroupModel>,
    pub meta: Seq<GroupModel>,
}

/// The state of one match's specifier pass: counter, maps, and the specifier
/// list generated for this match so far.
pub struct PassModel {
    pub counter: nat,
    pub names: Seq<GroupModel>,
    pub meta: Seq<GroupModel>,
    pub gen: Seq<SpecifierModel>,
}

/// The fresh engine state for one statement's expansion.
pub open spec fn init_state(counter: nat) -> StateModel {
    StateModel { counter, imports: Seq::empty(), names: Seq::empty(), meta: Seq::empty() }
}

/// The placeholder identifier minted for counter value `c`.
pub open spec fn iga_name(c: nat) -> Seq<char> {
    "_iga"@ + digits(c)
}

/// One specifier of one resolved match: a metadata specifier records a
/// metadata element and generates nothing; any other specifier mints the next
/// placeholder, records a value element, and generates the same specifier
/// kind bound to the placeholder.
pub open spec fn step_specifier(p: PassModel, s: SpecifierModel, paths: PathsModel) -> PassModel {
    if is_meta_model(s) {
        PassModel {
            counter: p.counter,
            names: p.names,
            meta: upsert_model(
                p.meta,
                local_model(s),
                ElemModel::MetaRecord {
                    absolute_path: paths.absolute_path,
                    imported_path: paths.imported_path,
                },
            ),
            gen: p.gen,
        }
    } else {
        let c = p.counter + 1;
        let ph = iga_name(c);
        PassModel {
            counter: c,
            names: upsert_model(p.names, local_model(s), ElemModel::ValueRef { placeholder: ph }),
            meta: p.meta,
            gen: p.gen.push(with_local(s, ph)),
        }
    }
}

/// The specifier pass over the first `n` specifiers, in declared order.
pub open spec fn specs_prefix(
    p0: PassModel,
    specs: Seq<SpecifierModel>,
    paths: PathsModel,
    n: int,
) -> PassModel
    decreases n,
{
    if n <= 0 {
        p0
    } else {
        step_specifier(specs_prefix(p0, specs, paths, n - 1), specs[n - 1], paths)
    }
}

/// One match of the enumeration: an unresolvable match is skipped whole; a
/// resolved one runs the specifier pass and, if any specifier was generated,
/// appends one import statement with the resolved import path as its source.
pub open spec fn step_match(
    st: StateModel,
    cwd: Seq<char>,
    file: Seq<char>,
    specs: Seq<SpecifierModel>,
    m: Seq<char>,
) -> StateModel {
    match get_paths_model(cwd, file, m) {
        None => st,
        Some(paths) => {
            let p = specs_prefix(
                PassModel { counter: st.counter, names: st.names, meta: st.meta, gen: Seq::empty() },
                specs,
                paths,
                specs.len() as int,
            );
            StateModel {
                counter: p.counter,
                names: p.names,
                meta: p.meta,
                imports: if p.gen.len() > 0 {
                    st.imports.push(ImportModel { src: paths.imported_path, specifiers: p.gen })
                } else {
                    st.imports
                },
            }
        },
    }
}

/// The fold over the first `n` matches, in enumeration order.
pub open spec fn expand_prefix(
    st0: StateModel,
    cwd: Seq<char>,
    file: Seq<char>,
    specs: Seq<SpecifierModel>,
    ms: Seq<Seq<char>>,
    n: int,
) -> StateModel
    decreases n,
{
    if n <= 0 {
        st0
    } else {
        step_match(expand_prefix(st0, cwd, file, specs, ms, n - 1), cwd, file, specs, ms[n - 1])
    }
}

/// The complete expansion of one statement: the fold over the whole match
/// list, starting from counter `c0`.
pub open spec fn expand_model(
    c0: nat,
    cwd: Seq<char>,
    file: Seq<char>,
    specs: Seq<SpecifierModel>,
    ms: Seq<Seq<char>>,
) -> StateModel {
    expand_prefix(init_state(c0), cwd, file, specs, ms, ms.len() as int)
}

/// `t` is the rendered form of the expansion of `specs` over `ms` that starts
/// at counter `c0` and ends at counter `c1`.
pub open spec fn expansion_of(
    c0: nat,
    cwd: Seq<char>,
    file: Seq<char>,
    specs: Seq<SpecifierModel>,
    ms: Seq<Seq<char>>,
    c1: nat,
    t: TransformedStatements,
) -> bool {
    let st = expand_model(c0, cwd, file, specs, ms);
    &&& c1 == st.counter
    &&& t.imports.deep_view() == st.imports
    &&& t.names.deep_view() == decls_of(st.names)
    &&& t.meta.deep_view() == decls_of(st.meta)
}

/// `t` is the rendered expansion, from counter `c0` to counter `c1`, of
/// `specs` over some match list — the one the filesystem enumeration gave.
pub open spec fn some_expansion(
    c0: nat,
    cwd: Seq<char>,
    file: Seq<char>,
    specs: Seq<SpecifierModel>,
    c1: nat,
    t: TransformedStatements,
) -> bool {
    exists|ms: Seq<Seq<char>>| expansion_of(c0, cwd, file, specs, ms, c1, t)
}

/// Whether a source string contains glob wildcard syntax, as the `is-glob`
/// crate decides it.
pub uninterp spec fn is_glob_pattern(s: Seq<char>) -> bool;

/// Relies on `is_glob::is_glob`: a pure test for glob wildcard syntax whose
/// result depends on the characters of the string alone.
#[verifier::external_body]
fn is_glob_check(s: &String) -> (r: bool)
    ensures
        r == is_glob_pattern(s@),
{
    is_glob::is_glob(s)
}

/// An import source is eligible for expansion iff it is relative or rooted
/// (starts with `.` or `/`) and contains glob wildcard syntax.
pub open spec fn eligible_model(s: Seq<char>) -> bool {
    s.len() > 0 && (s[0] == '.' || s[0] == '/') && is_glob_pattern(s)
}

/// The traversal driver's eligibility test for one import source string.
pub fn is_eligible(src: &String) -> (r: bool)
    ensures
        r == eligible_model(src@),
{
    if src.as_str().unicode_len() == 0 {
        return false;
    }
    let c = src.as_str().get_char(0);
    if c == '.' || c == '/' {
        is_glob_check(src)
    } else {
        false
    }
}

/// Relies on `globwalk::glob`: enumerates the files on disk matching the
/// pattern. What comes back depends on the filesystem, so nothing is promised
/// of it; an unbuildable pattern or an unreadable entry contributes nothing.
#[verifier::external_body]
fn glob_matches(pattern: &String) -> (r: Vec<String>) {
    match globwalk::glob(pattern.as_str()) {
        Ok(walker) => walker.filter_map(|entry| entry.ok()).filter_map(
            |entry| entry.into_path().to_str().map(|p| p.to_string()),
        ).collect(),
        Err(_) => Vec::new(),
    }
}

/// Build the sandboxed glob search path for `src`: joined onto the importing
/// file's directory, normalized, and re-rooted under the virtual mount.
/// `None` exactly when the normalized path escapes the project root — the
/// caller must then abandon this statement's expansion.
pub fn build_glob_path(plugin: &ImportGlobArrayPlugin, src: &str) -> (r: Option<String>)
    ensures
        match r {
            Option::None => glob_path_model(plugin.filename@, plugin.cwd@, src@) is None,
            Option::Some(p) => glob_path_model(plugin.filename@, plugin.cwd@, src@) == Some(p@),
        },
{
    let dir = match dirname_exec(plugin.filename.as_str()) {
        Option::None => {
            return None;
        },
        Option::Some(d) => d,
    };
    let joined = join_path_exec(dir.as_str(), src);
    let g = crate::paths::clean_path(&joined);
    if path_prefix_exec(g.as_str(), plugin.cwd.as_str()) {
        let rel = strip_path_prefix_exec(g.as_str(), plugin.cwd.as_str());
        Some(join_path_exec("/cwd", rel.as_str()))
    } else {
        None
    }
}

/// Expand the specifiers of one statement over an already-enumerated match
/// list. The result is pinned: it is exactly the fold `expand_model`, with
/// the plugin's counter advanced to the fold's final counter.
pub fn expand_matches(
    plugin: &mut ImportGlobArrayPlugin,
    import_specifiers: &Vec<ImportSpecifier>,
    matched: &Vec<String>,
) -> (r: TransformedStatements)
    requires
        old(plugin).id_counter + matched@.len() * import_specifiers@.len() <= usize::MAX,
    ensures
        final(plugin).cwd == old(plugin).cwd,
        final(plugin).filename == old(plugin).filename,
        expansion_of(
            old(plugin).id_counter as nat,
            old(plugin).cwd@,
            old(plugin).filename@,
            import_specifiers.deep_view(),
            matched.deep_view(),
            final(plugin).id_counter as nat,
            r,
        ),
{
    let ghost c0 = old(plugin).id_counter as nat;
    let ghost cwd_g = old(plugin).cwd@;
    let ghost file_g = old(plugin).filename@;
    let ghost specs_g = import_specifiers.deep_view();
    let ghost ms_g = matched.deep_view();
    let mut imports: Vec<ImportStatement> = Vec::new();
    let mut names: Vec<AggGroup> = Vec::new();
    let mut meta: Vec<AggGroup> = Vec::new();
    let n = matched.len();
    let sn = import_specifiers.len();
    let mut mi: usize = 0;
    while mi < n
        invariant
            mi <= n,
            n == matched@.len(),
            sn == import_specifiers@.len(),
            plugin.cwd == old(plugin).cwd,
            plugin.filename == old(plugin).filename,
            specs_g == import_specifiers.deep_view(),
            ms_g == matched.deep_view(),
            cwd_g == plugin.cwd@,
            file_g == plugin.filename@,
            plugin.id_counter + (n - mi) * sn <= usize::MAX,
            ({
                let st = expand_prefix(init_state(c0), cwd_g, file_g, specs_g, ms_g, mi as int);
                &&& plugin.id_counter as nat == st.counter
                &&& imports.deep_view() == st.imports
                &&& names.deep_view() == st.names
                &&& meta.deep_view() == st.meta
            }),
        decreases n - mi,
    {
        let ghost st_pre = expand_prefix(init_state(c0), cwd_g, file_g, specs_g, ms_g, mi as int);
        proof {
            assert((n - mi) * sn == sn + (n - mi - 1) * sn) by (nonlinear_arith)
                requires
                    mi < n,
            ;
            assert((n - mi - 1) * sn >= 0) by (nonlinear_arith)
                requires
                    mi < n,
            ;
        }
        let m = &matched[mi];
        match plugin.get_paths(m) {
            Option::None => {
                proof {
                    assert(ms_g[mi as int] == m@);
                    assert(expand_prefix(init_state(c0), cwd_g, file_g, specs_g, ms_g, mi + 1)
                        == step_match(st_pre, cwd_g, file_g, specs_g, ms_g[mi as int]));
                }
            },
            Option::Some(paths) => {
                let ghost paths_m = paths@;
                let ghost p0 = PassModel {
                    counter: st_pre.counter,
                    names: st_pre.names,
                    meta: st_pre.meta,
                    gen: Seq::empty(),
                };
                let mut gen: Vec<ImportSpecifier> = Vec::new();
                let mut si: usize = 0;
                while si < sn
                    invariant
                        si <= sn,
                        sn == import_specifiers@.len(),
                        plugin.cwd == old(plugin).cwd,
                        plugin.filename == old(plugin).filename,
                        specs_g == import_specifiers.deep_view(),
                        paths.absolute_path@ == paths_m.absolute_path,
                        paths.imported_path@ == paths_m.imported_path,
                        mi < n,
                        n == matched@.len(),
                        plugin.id_counter as nat <= p0.counter + si,
                        p0.counter + (n - mi) * sn <= usize::MAX,
                        sn + (n - mi - 1) * sn == (n - mi) * sn,
                        (n - mi - 1) * sn >= 0,
                        ({
                            let p = specs_prefix(p0, specs_g, paths_m, si as int);
                            &&& plugin.id_counter as nat == p.counter
                            &&& names.deep_view() == p.names
                            &&& meta.deep_view() == p.meta
                            &&& gen.deep_view() == p.gen
                        }),
                    decreases sn - si,
                {
                    let s = &import_specifiers[si];
                    proof {
                        assert(specs_g[si as int] == s.deep_view());
                    }
                    if s.is_meta_decl() {
                        let key = s.get_local_name();
                        upsert_map(&mut meta, &key, get_import_map_expr(&paths));
                    } else {
                        let ph = plugin.next_id("_iga");
                        let key = s.get_local_name();
                        upsert_map(
                            &mut names,
                            &key,
                            ArrayElement::ValueRef { placeholder: ph.clone() },
                        );
                        gen.push(s.with_placeholder(ph));
                        proof {
                            assert(gen.deep_view() =~= specs_prefix(
                                p0,
                                specs_g,
                                paths_m,
                                si as int,
                            ).gen.push(with_local(specs_g[si as int], iga_name(
                                plugin.id_counter as nat,
                            ))));
                        }
                    }
                    si += 1;
                }
                let ghost p_fin = specs_prefix(p0, specs_g, paths_m, sn as int);
                if gen.len() > 0 {
                    imports.push(ImportStatement { src: paths.imported_path, specifiers: gen });
                    proof {
                        assert(imports.deep_view() =~= st_pre.imports.push(ImportModel {
                            src: paths_m.imported_path,
                            specifiers: p_fin.gen,
                        }));
                    }
                }
                proof {
                    assert(ms_g[mi as int] == m@);
                    assert(get_paths_model(cwd_g, file_g, ms_g[mi as int]) == Some(paths_m));
                    assert(expand_prefix(init_state(c0), cwd_g, file_g, specs_g, ms_g, mi + 1)
                        == step_match(st_pre, cwd_g, file_g, specs_g, ms_g[mi as int]));
                }
            },
        }
        mi += 1;
    }
    proof {
        assert(expand_prefix(init_state(c0), cwd_g, file_g, specs_g, ms_g, n as int)
            == expand_model(c0, cwd_g, file_g, specs_g, ms_g));
    }
    TransformedStatements { imports, names: to_var_decls(names), meta: to_var_decls(meta) }
}

/// Expand one eligible glob import statement: build the sandboxed search
/// path, enumerate the matches on disk, and expand them. `None` exactly when
/// the pattern escapes the project root; the statement is then abandoned and
/// the counter untouched. Otherwise the result is the exact expansion of a
/// match list the enumeration gave: all of it, save that matches beyond what
/// the counter can still afford on this machine are left unexpanded.
pub fn transform_import_decl(
    plugin: &mut ImportGlobArrayPlugin,
    import_src: &String,
    import_specifiers: &Vec<ImportSpecifier>,
) -> (r: Option<TransformedStatements>)
    ensures
        final(plugin).cwd == old(plugin).cwd,
        final(plugin).filename == old(plugin).filename,
        r is None <==> glob_path_model(old(plugin).filename@, old(plugin).cwd@, import_src@)
            is None,
        r is None ==> final(plugin).id_counter == old(plugin).id_counter,
        (match r {
            Option::None => true,
            Option::Some(t) => some_expansion(
                old(plugin).id_counter as nat,
                old(plugin).cwd@,
                old(plugin).filename@,
                import_specifiers.deep_view(),
                final(plugin).id_counter as nat,
                t,
            ),
        }),
{
    let glob_path = match build_glob_path(plugin, import_src.as_str()) {
        Option::None => {
            return None;
        },
        Option::Some(p) => p,
    };
    let mut matched = glob_matches(&glob_path);
    let sn = import_specifiers.len();
    if sn > 0 {
        let headroom = (usize::MAX - plugin.id_counter) / sn;
        if matched.len() > headroom {
            matched.truncate(headroom);
        }
        proof {
            let c = plugin.id_counter as int;
            let x = usize::MAX - c;
            vstd::arithmetic::div_mod::lemma_fundamental_div_mod(x, sn as int);
            vstd::arithmetic::div_mod::lemma_mod_bound(x, sn as int);
            assert(matched@.len() * sn <= (x / sn as int) * sn) by (nonlinear_arith)
                requires
                    matched@.len() <= x / sn as int,
                    sn >= 0,
            ;
            assert((x / sn as int) * sn == sn * (x / sn as int));
        }
    } else {
        proof {
            assert(matched@.len() * sn == 0) by (nonlinear_arith)
                requires
                    sn == 0,
            ;
        }
    }
    let t = expand_matches(plugin, import_specifiers, &matched);
    proof {
        let ms = matched.deep_view();
        assert(expansion_of(
            old(plugin).id_counter as nat,
            old(plugin).cwd@,
            old(plugin).filename@,
            import_specifiers.deep_view(),
            ms,
            plugin.id_counter as nat,
            t,
        ));
        assert(some_expansion(
            old(plugin).id_counter as nat,
            old(plugin).cwd@,
            old(plugin).filename@,
            import_specifiers.deep_view(),
            plugin.id_counter as nat,
            t,
        ));
    }
    Some(t)
}

} // verus!
