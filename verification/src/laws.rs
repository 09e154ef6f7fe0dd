//! The library's laws: placeholder uniqueness, aggregation cardinality,
//! dot-relative import sources, and determinism of the expansion, each proved
//! over the fold that the engine's contracts pin.
use crate::idgen::digits;
use crate::idgen::lemma_concat_cancel;
use crate::idgen::lemma_digits_injective;
use crate::imports::is_meta_model;
use crate::imports::local_model;
use crate::imports::with_local;
use crate::imports::SpecifierModel;
use crate::paths::get_paths_model;
use crate::transformer::expand_model;
use crate::transformer::expand_prefix;
use crate::transformer::expansion_of;
use crate::transformer::iga_name;
use crate::transformer::init_state;
use crate::transformer::ImportModel;
use crate::transformer::specs_prefix;
use crate::transformer::step_match;
use crate::transformer::step_specifier;
use crate::transformer::PassModel;
use crate::transformer::StateModel;
use crate::transformer::TransformedStatements;
use crate::utils::find_group;
use crate::utils::upsert_model;
use crate::utils::ElemModel;
use crate::utils::GroupModel;
use crate::paths::cwd_marker;
use crate::paths::PathsModel;
use crate::strutil::collapse_slashes;
use crate::strutil::join_path;
use crate::strutil::lemma_collapse_first;
use crate::strutil::path_has_prefix;
use crate::strutil::starts_with;
use crate::strutil::strip_path_prefix;
use vstd::prelude::*;

verus! {

/// The placeholder a group element refers to, if it is a value reference.
pub open spec fn elem_ph(el: ElemModel) -> Option<Seq<char>> {
    match el {
        ElemModel::ValueRef { placeholder } => Some(placeholder),
        ElemModel::MetaRecord { .. } => None,
    }
}

/// The placeholder recorded at position `(g, e)` of the group sequence.
pub open spec fn ph_at(gs: Seq<GroupModel>, g: int, e: int) -> Option<Seq<char>> {
    if 0 <= g < gs.len() && 0 <= e < gs[g].elems.len() {
        elem_ph(gs[g].elems[e])
    } else {
        None
    }
}

/// Every recorded placeholder was minted for a counter value in `(lo, hi]`.
pub open spec fn phs_in_range(gs: Seq<GroupModel>, lo: nat, hi: nat) -> bool {
    forall|g: int, e: int|
        (#[trigger] ph_at(gs, g, e)) is Some ==> exists|c: nat|
            lo < c <= hi && ph_at(gs, g, e) == Some(iga_name(c))
}

/// No two distinct positions record the same placeholder.
pub open spec fn phs_distinct(gs: Seq<GroupModel>) -> bool {
    forall|g1: int, e1: int, g2: int, e2: int|
        #![trigger ph_at(gs, g1, e1), ph_at(gs, g2, e2)]
        ph_at(gs, g1, e1) is Some && ph_at(gs, g1, e1) == ph_at(gs, g2, e2) ==> (g1 == g2 && e1
            == e2)
}

pub proof fn lemma_find_group_bounds(gs: Seq<GroupModel>, key: Seq<char>)
    ensures
        -1 <= find_group(gs, key) < gs.len(),
        find_group(gs, key) >= 0 ==> gs[find_group(gs, key)].key == key,
    decreases gs.len(),
{
    if gs.len() > 0 && gs[0].key != key {
        lemma_find_group_bounds(gs.drop_first(), key);
    }
}

/// Two placeholders minted for distinct counter values are distinct.
pub proof fn lemma_iga_injective(a: nat, b: nat)
    requires
        iga_name(a) == iga_name(b),
    ensures
        a == b,
{
    lemma_concat_cancel("_iga"@, digits(a), digits(b));
    lemma_digits_injective(a, b);
}

proof fn lemma_upsert_ph(gs: Seq<GroupModel>, key: Seq<char>, el: ElemModel)
    ensures
        ({
            let gs2 = upsert_model(gs, key, el);
            let i = find_group(gs, key);
            &&& (i < 0 ==> forall|g: int, e: int|
                #[trigger] ph_at(gs2, g, e) == (if g == gs.len() && e == 0 {
                    elem_ph(el)
                } else {
                    ph_at(gs, g, e)
                }))
            &&& (i >= 0 ==> forall|g: int, e: int|
                #[trigger] ph_at(gs2, g, e) == (if g == i && e == gs[i].elems.len() {
                    elem_ph(el)
                } else {
                    ph_at(gs, g, e)
                }))
        }),
{
    lemma_find_group_bounds(gs, key);
    let gs2 = upsert_model(gs, key, el);
    let i = find_group(gs, key);
    if i < 0 {
        assert forall|g: int, e: int|
            #[trigger] ph_at(gs2, g, e) == (if g == gs.len() && e == 0 {
                elem_ph(el)
            } else {
                ph_at(gs, g, e)
            }) by {
            if g == gs.len() {
                assert(gs2[g].elems =~= seq![el]);
            }
        }
    } else {
        assert forall|g: int, e: int|
            #[trigger] ph_at(gs2, g, e) == (if g == i && e == gs[i].elems.len() {
                elem_ph(el)
            } else {
                ph_at(gs, g, e)
            }) by {
            if g == i {
                assert(gs2[g].elems =~= gs[i].elems.push(el));
            }
        }
    }
}

proof fn lemma_upsert_value_ph(gs: Seq<GroupModel>, key: Seq<char>, c: nat, lo: nat, hi: nat)
    requires
        phs_in_range(gs, lo, hi),
        phs_distinct(gs),
        lo < c,
        hi < c,
    ensures
        phs_in_range(upsert_model(gs, key, ElemModel::ValueRef { placeholder: iga_name(c) }), lo, c),
        phs_distinct(upsert_model(gs, key, ElemModel::ValueRef { placeholder: iga_name(c) })),
{
    let el = ElemModel::ValueRef { placeholder: iga_name(c) };
    let gs2 = upsert_model(gs, key, el);
    lemma_upsert_ph(gs, key, el);
    assert forall|g: int, e: int| (#[trigger] ph_at(gs2, g, e)) is Some implies exists|c2: nat|
        lo < c2 <= c && ph_at(gs2, g, e) == Some(iga_name(c2)) by {
        if ph_at(gs2, g, e) == ph_at(gs, g, e) {
            let c2 = choose|c2: nat| lo < c2 <= hi && ph_at(gs, g, e) == Some(iga_name(c2));
            assert(lo < c2 <= c && ph_at(gs2, g, e) == Some(iga_name(c2)));
        } else {
            assert(ph_at(gs2, g, e) == Some(iga_name(c)));
            assert(lo < c <= c && ph_at(gs2, g, e) == Some(iga_name(c)));
        }
    }
    assert forall|g1: int, e1: int, g2: int, e2: int|
        ph_at(gs2, g1, e1) is Some && #[trigger] ph_at(gs2, g1, e1) == #[trigger] ph_at(
            gs2,
            g2,
            e2,
        ) implies (g1 == g2 && e1 == e2) by {
        let fresh1 = !(ph_at(gs2, g1, e1) == ph_at(gs, g1, e1));
        let fresh2 = !(ph_at(gs2, g2, e2) == ph_at(gs, g2, e2));
        if fresh1 && fresh2 {
        } else if fresh1 && !fresh2 {
            let c2 = choose|c2: nat| lo < c2 <= hi && ph_at(gs, g2, e2) == Some(iga_name(c2));
            assert(iga_name(c) == iga_name(c2));
            lemma_iga_injective(c, c2);
        } else if !fresh1 && fresh2 {
            let c1 = choose|c1: nat| lo < c1 <= hi && ph_at(gs, g1, e1) == Some(iga_name(c1));
            assert(iga_name(c) == iga_name(c1));
            lemma_iga_injective(c, c1);
        } else {
            assert(ph_at(gs, g1, e1) is Some && ph_at(gs, g1, e1) == ph_at(gs, g2, e2));
        }
    }
}

proof fn lemma_step_specifier_ph(p: PassModel, s: SpecifierModel, paths: PathsModel, lo: nat)
    requires
        phs_in_range(p.names, lo, p.counter),
        phs_distinct(p.names),
        lo <= p.counter,
    ensures
        ({
            let p2 = step_specifier(p, s, paths);
            &&& p.counter <= p2.counter
            &&& lo <= p2.counter
            &&& phs_in_range(p2.names, lo, p2.counter)
            &&& phs_distinct(p2.names)
        }),
{
    if !is_meta_model(s) {
        lemma_upsert_value_ph(p.names, local_model(s), p.counter + 1, lo, p.counter);
    }
}

proof fn lemma_specs_prefix_ph(
    p0: PassModel,
    specs: Seq<SpecifierModel>,
    paths: PathsModel,
    n: int,
    lo: nat,
)
    requires
        phs_in_range(p0.names, lo, p0.counter),
        phs_distinct(p0.names),
        lo <= p0.counter,
    ensures
        ({
            let p2 = specs_prefix(p0, specs, paths, n);
            &&& p0.counter <= p2.counter
            &&& lo <= p2.counter
            &&& phs_in_range(p2.names, lo, p2.counter)
            &&& phs_distinct(p2.names)
        }),
    decreases n,
{
    if n > 0 {
        lemma_specs_prefix_ph(p0, specs, paths, n - 1, lo);
        lemma_step_specifier_ph(specs_prefix(p0, specs, paths, n - 1), specs[n - 1], paths, lo);
    }
}

proof fn lemma_step_match_ph(
    st: StateModel,
    cwd: Seq<char>,
    file: Seq<char>,
    specs: Seq<SpecifierModel>,
    m: Seq<char>,
    lo: nat,
)
    requires
        phs_in_range(st.names, lo, st.counter),
        phs_distinct(st.names),
        lo <= st.counter,
    ensures
        ({
            let st2 = step_match(st, cwd, file, specs, m);
            &&& st.counter <= st2.counter
            &&& lo <= st2.counter
            &&& phs_in_range(st2.names, lo, st2.counter)
            &&& phs_distinct(st2.names)
        }),
{
    match get_paths_model(cwd, file, m) {
        None => {},
        Some(paths) => {
            let p0 = PassModel {
                counter: st.counter,
                names: st.names,
                meta: st.meta,
                gen: Seq::empty(),
            };
            lemma_specs_prefix_ph(p0, specs, paths, specs.len() as int, lo);
        },
    }
}

proof fn lemma_expand_prefix_ph(
    st0: StateModel,
    cwd: Seq<char>,
    file: Seq<char>,
    specs: Seq<SpecifierModel>,
    ms: Seq<Seq<char>>,
    n: int,
    lo: nat,
)
    requires
        phs_in_range(st0.names, lo, st0.counter),
        phs_distinct(st0.names),
        lo <= st0.counter,
    ensures
        ({
            let st2 = expand_prefix(st0, cwd, file, specs, ms, n);
            &&& st0.counter <= st2.counter
            &&& lo <= st2.counter
            &&& phs_in_range(st2.names, lo, st2.counter)
            &&& phs_distinct(st2.names)
        }),
    decreases n,
{
    if n > 0 {
        lemma_expand_prefix_ph(st0, cwd, file, specs, ms, n - 1, lo);
        lemma_step_match_ph(
            expand_prefix(st0, cwd, file, specs, ms, n - 1),
            cwd,
            file,
            specs,
            ms[n - 1],
            lo,
        );
    }
}

/// Uniqueness law: across one statement's expansion, no two recorded
/// placeholder references are equal, and every placeholder was minted for a
/// counter value in `(c0, final counter]`. Every placeholder minted for a
/// generated specifier is also recorded as a value reference, so this covers
/// all generated placeholder identifiers of the statement.
pub proof fn lemma_placeholder_uniqueness(
    c0: nat,
    cwd: Seq<char>,
    file: Seq<char>,
    specs: Seq<SpecifierModel>,
    ms: Seq<Seq<char>>,
)
    ensures
        ({
            let st = expand_model(c0, cwd, file, specs, ms);
            &&& c0 <= st.counter
            &&& phs_in_range(st.names, c0, st.counter)
            &&& phs_distinct(st.names)
        }),
{
    let st0 = init_state(c0);
    assert(forall|g: int, e: int| ph_at(st0.names, g, e) is None);
    lemma_expand_prefix_ph(st0, cwd, file, specs, ms, ms.len() as int, c0);
}

/// Uniqueness across a whole file: placeholders recorded by one statement's
/// expansion (counter range `(c0, c1]`) never collide with those of a later
/// statement's expansion (counter range `(c1, c2]`), since the counter is
/// never reset within a file.
pub proof fn lemma_cross_statement_uniqueness(
    gs1: Seq<GroupModel>,
    gs2: Seq<GroupModel>,
    c0: nat,
    c1: nat,
    c2: nat,
)
    requires
        phs_in_range(gs1, c0, c1),
        phs_in_range(gs2, c1, c2),
    ensures
        forall|g1: int, e1: int, g2: int, e2: int|
            (#[trigger] ph_at(gs1, g1, e1)) is Some ==> ph_at(gs1, g1, e1) != #[trigger] ph_at(
                gs2,
                g2,
                e2,
            ),
{
    assert forall|g1: int, e1: int, g2: int, e2: int|
        (#[trigger] ph_at(gs1, g1, e1)) is Some implies ph_at(gs1, g1, e1) != #[trigger] ph_at(
        gs2,
        g2,
        e2,
    ) by {
        if ph_at(gs2, g2, e2) is Some && ph_at(gs1, g1, e1) == ph_at(gs2, g2, e2) {
            let ca = choose|ca: nat| c0 < ca <= c1 && ph_at(gs1, g1, e1) == Some(iga_name(ca));
            let cb = choose|cb: nat| c1 < cb <= c2 && ph_at(gs2, g2, e2) == Some(iga_name(cb));
            assert(iga_name(ca) == iga_name(cb));
            lemma_iga_injective(ca, cb);
        }
    }
}

/// An import source in proper dot-relative form.
pub open spec fn dot_relative(s: Seq<char>) -> bool {
    starts_with(s, "./"@) || starts_with(s, "../"@)
}

/// Path-shape law: every import statement the expansion emits has a source
/// path that begins with `./` or `../`, never a bare or absolute one.
pub proof fn lemma_import_sources_dot_relative(
    c0: nat,
    cwd: Seq<char>,
    file: Seq<char>,
    specs: Seq<SpecifierModel>,
    ms: Seq<Seq<char>>,
)
    ensures
        ({
            let st = expand_model(c0, cwd, file, specs, ms);
            forall|i: int| 0 <= i < st.imports.len() ==> dot_relative(
                (#[trigger] st.imports[i]).src,
            )
        }),
{
    lemma_expand_prefix_dot(init_state(c0), cwd, file, specs, ms, ms.len() as int);
}

proof fn lemma_get_paths_dot(cwd: Seq<char>, file: Seq<char>, m: Seq<char>)
    ensures
        get_paths_model(cwd, file, m) matches Some(p) ==> dot_relative(p.imported_path),
{
    reveal_strlit("./");
    if get_paths_model(cwd, file, m) is Some {
        let p = get_paths_model(cwd, file, m)->Some_0;
        if !dot_relative(p.imported_path) {
            let q = p.imported_path;
            assert(q.subrange(0, 2) =~= "./"@);
        }
    }
}

proof fn lemma_expand_prefix_dot(
    st0: StateModel,
    cwd: Seq<char>,
    file: Seq<char>,
    specs: Seq<SpecifierModel>,
    ms: Seq<Seq<char>>,
    n: int,
)
    requires
        forall|i: int| 0 <= i < st0.imports.len() ==> dot_relative((#[trigger] st0.imports[i]).src),
    ensures
        ({
            let st2 = expand_prefix(st0, cwd, file, specs, ms, n);
            forall|i: int| 0 <= i < st2.imports.len() ==> dot_relative(
                (#[trigger] st2.imports[i]).src,
            )
        }),
    decreases n,
{
    if n > 0 {
        lemma_expand_prefix_dot(st0, cwd, file, specs, ms, n - 1);
        let st_pre = expand_prefix(st0, cwd, file, specs, ms, n - 1);
        lemma_get_paths_dot(cwd, file, ms[n - 1]);
        let st2 = expand_prefix(st0, cwd, file, specs, ms, n);
        assert forall|i: int| 0 <= i < st2.imports.len() implies dot_relative(
            (#[trigger] st2.imports[i]).src,
        ) by {
            if i < st_pre.imports.len() {
                assert(st2.imports[i] == st_pre.imports[i]);
            }
        }
    }
}

/// The number of elements recorded under key `k`, or zero if no group for
/// `k` exists.
pub open spec fn group_len(gs: Seq<GroupModel>, k: Seq<char>) -> int {
    let i = find_group(gs, k);
    if i < 0 {
        0
    } else {
        gs[i].elems.len() as int
    }
}

/// How many of the first `n` specifiers bind the local name `k` in the given
/// mode (metadata or value).
pub open spec fn count_locals(
    specs: Seq<SpecifierModel>,
    n: int,
    k: Seq<char>,
    meta_mode: bool,
) -> int
    decreases n,
{
    if n <= 0 {
        0
    } else {
        count_locals(specs, n - 1, k, meta_mode) + if local_model(specs[n - 1]) == k
            && is_meta_model(specs[n - 1]) == meta_mode {
            1int
        } else {
            0
        }
    }
}

/// How many of the first `n` specifiers are value (non-metadata) specifiers.
pub open spec fn count_nonmeta(specs: Seq<SpecifierModel>, n: int) -> int
    decreases n,
{
    if n <= 0 {
        0
    } else {
        count_nonmeta(specs, n - 1) + if !is_meta_model(specs[n - 1]) {
            1int
        } else {
            0
        }
    }
}

/// How many of the first `n` matches resolve to usable paths.
pub open spec fn resolved_count(cwd: Seq<char>, file: Seq<char>, ms: Seq<Seq<char>>, n: int) -> int
    decreases n,
{
    if n <= 0 {
        0
    } else {
        resolved_count(cwd, file, ms, n - 1) + if get_paths_model(cwd, file, ms[n - 1]) is Some {
            1int
        } else {
            0
        }
    }
}

proof fn lemma_find_group_push(gs: Seq<GroupModel>, g: GroupModel, k: Seq<char>)
    ensures
        find_group(gs.push(g), k) == (if find_group(gs, k) >= 0 {
            find_group(gs, k)
        } else if g.key == k {
            gs.len() as int
        } else {
            -1
        }),
    decreases gs.len(),
{
    if gs.len() == 0 {
        assert(gs.push(g)[0] == g);
        assert(gs.push(g).drop_first() =~= Seq::<GroupModel>::empty());
        assert(find_group(gs.push(g).drop_first(), k) == -1);
        if g.key == k {
            assert(find_group(gs.push(g), k) == 0);
        } else {
            assert(find_group(gs.push(g), k) == -1);
        }
    } else {
        assert(gs.push(g)[0] == gs[0]);
        if gs[0].key != k {
            assert(gs.push(g).drop_first() =~= gs.drop_first().push(g));
            lemma_find_group_push(gs.drop_first(), g, k);
            assert(find_group(gs.push(g).drop_first(), k) == find_group(
                gs.drop_first().push(g),
                k,
            ));
            let r = find_group(gs.drop_first(), k);
            if r >= 0 {
                assert(find_group(gs, k) == r + 1);
                assert(find_group(gs.push(g), k) == r + 1);
            } else if g.key == k {
                assert(find_group(gs.drop_first().push(g), k) == gs.drop_first().len());
                assert(find_group(gs.push(g), k) == gs.len() as int);
                assert(find_group(gs, k) == -1);
            } else {
                assert(find_group(gs.drop_first().push(g), k) == -1);
                assert(find_group(gs.push(g), k) == -1);
                assert(find_group(gs, k) == -1);
            }
        } else {
            assert(find_group(gs.push(g), k) == 0);
            assert(find_group(gs, k) == 0);
        }
    }
}

proof fn lemma_find_group_update(gs: Seq<GroupModel>, i: int, g2: GroupModel, k: Seq<char>)
    requires
        0 <= i < gs.len(),
        g2.key == gs[i].key,
    ensures
        find_group(gs.update(i, g2), k) == find_group(gs, k),
    decreases gs.len(),
{
    if i == 0 {
        assert(gs.update(0, g2)[0] == g2);
        assert(gs.update(0, g2).drop_first() =~= gs.drop_first());
    } else {
        assert(gs.update(i, g2)[0] == gs[0]);
        assert(gs.update(i, g2).drop_first() =~= gs.drop_first().update(i - 1, g2));
        if gs[0].key != k {
            lemma_find_group_update(gs.drop_first(), i - 1, g2, k);
        }
    }
}

proof fn lemma_upsert_group_len(gs: Seq<GroupModel>, key: Seq<char>, el: ElemModel, k: Seq<char>)
    ensures
        group_len(upsert_model(gs, key, el), k) == group_len(gs, k) + (if k == key {
            1int
        } else {
            0
        }),
{
    lemma_find_group_bounds(gs, key);
    lemma_find_group_bounds(gs, k);
    let i = find_group(gs, key);
    if i < 0 {
        lemma_find_group_push(gs, GroupModel { key, elems: seq![el] }, k);
        let gs2 = gs.push(GroupModel { key, elems: seq![el] });
        if k == key {
            assert(gs2[gs.len() as int].elems =~= seq![el]);
        } else {
            if find_group(gs, k) >= 0 {
                assert(gs2[find_group(gs, k)] == gs[find_group(gs, k)]);
            }
        }
    } else {
        let g2 = GroupModel { key, elems: gs[i].elems.push(el) };
        lemma_find_group_update(gs, i, g2, k);
        let gs2 = gs.update(i, g2);
        if k == key {
            assert(find_group(gs, k) == i);
            assert(gs2[i] == g2);
        } else {
            if find_group(gs, k) >= 0 {
                assert(find_group(gs, k) != i);
                assert(gs2[find_group(gs, k)] == gs[find_group(gs, k)]);
            }
        }
    }
}

proof fn lemma_specs_prefix_len(
    p0: PassModel,
    specs: Seq<SpecifierModel>,
    paths: PathsModel,
    n: int,
    k: Seq<char>,
)
    ensures
        ({
            let p2 = specs_prefix(p0, specs, paths, n);
            &&& group_len(p2.names, k) == group_len(p0.names, k) + count_locals(
                specs,
                n,
                k,
                false,
            )
            &&& group_len(p2.meta, k) == group_len(p0.meta, k) + count_locals(specs, n, k, true)
            &&& p2.gen.len() == p0.gen.len() + count_nonmeta(specs, n)
        }),
    decreases n,
{
    if n > 0 {
        lemma_specs_prefix_len(p0, specs, paths, n - 1, k);
        let p = specs_prefix(p0, specs, paths, n - 1);
        let s = specs[n - 1];
        if is_meta_model(s) {
            lemma_upsert_group_len(
                p.meta,
                local_model(s),
                ElemModel::MetaRecord {
                    absolute_path: paths.absolute_path,
                    imported_path: paths.imported_path,
                },
                k,
            );
        } else {
            lemma_upsert_group_len(
                p.names,
                local_model(s),
                ElemModel::ValueRef { placeholder: iga_name(p.counter + 1) },
                k,
            );
        }
    }
}

proof fn lemma_expand_prefix_len(
    st0: StateModel,
    cwd: Seq<char>,
    file: Seq<char>,
    specs: Seq<SpecifierModel>,
    ms: Seq<Seq<char>>,
    n: int,
    k: Seq<char>,
)
    requires
        n >= 0,
    ensures
        ({
            let st2 = expand_prefix(st0, cwd, file, specs, ms, n);
            let rc = resolved_count(cwd, file, ms, n);
            let sl = specs.len() as int;
            &&& 0 <= rc <= n
            &&& group_len(st2.names, k) == group_len(st0.names, k) + rc * count_locals(
                specs,
                sl,
                k,
                false,
            )
            &&& group_len(st2.meta, k) == group_len(st0.meta, k) + rc * count_locals(
                specs,
                sl,
                k,
                true,
            )
            &&& st2.imports.len() == st0.imports.len() + (if count_nonmeta(specs, sl) > 0 {
                rc
            } else {
                0
            })
        }),
    decreases n,
{
    let sl = specs.len() as int;
    if n > 0 {
        lemma_expand_prefix_len(st0, cwd, file, specs, ms, n - 1, k);
        let st_pre = expand_prefix(st0, cwd, file, specs, ms, n - 1);
        let rc_pre = resolved_count(cwd, file, ms, n - 1);
        match get_paths_model(cwd, file, ms[n - 1]) {
            None => {},
            Some(paths) => {
                let p0 = PassModel {
                    counter: st_pre.counter,
                    names: st_pre.names,
                    meta: st_pre.meta,
                    gen: Seq::empty(),
                };
                lemma_specs_prefix_len(p0, specs, paths, sl, k);
                assert((rc_pre + 1) * count_locals(specs, sl, k, false) == rc_pre * count_locals(
                    specs,
                    sl,
                    k,
                    false,
                ) + count_locals(specs, sl, k, false)) by (nonlinear_arith);
                assert((rc_pre + 1) * count_locals(specs, sl, k, true) == rc_pre * count_locals(
                    specs,
                    sl,
                    k,
                    true,
                ) + count_locals(specs, sl, k, true)) by (nonlinear_arith);
            },
        }
    }
}

/// Cardinality law: for any binding name `k`, after expanding over `ms` the
/// value group for `k` holds one element per resolved match and per value
/// specifier binding `k`; the metadata group for `k` likewise, counting
/// metadata specifiers; and one import statement is emitted per resolved
/// match if any specifier is a value specifier, none otherwise — so at most
/// one per match.
pub proof fn lemma_cardinality(
    c0: nat,
    cwd: Seq<char>,
    file: Seq<char>,
    specs: Seq<SpecifierModel>,
    ms: Seq<Seq<char>>,
    k: Seq<char>,
)
    ensures
        ({
            let st = expand_model(c0, cwd, file, specs, ms);
            let rc = resolved_count(cwd, file, ms, ms.len() as int);
            let sl = specs.len() as int;
            &&& 0 <= rc <= ms.len()
            &&& group_len(st.names, k) == rc * count_locals(specs, sl, k, false)
            &&& group_len(st.meta, k) == rc * count_locals(specs, sl, k, true)
            &&& st.imports.len() == (if count_nonmeta(specs, sl) > 0 {
                rc
            } else {
                0
            })
            &&& st.imports.len() <= ms.len()
        }),
{
    let st0 = init_state(c0);
    assert(group_len(st0.names, k) == 0);
    assert(group_len(st0.meta, k) == 0);
    lemma_expand_prefix_len(st0, cwd, file, specs, ms, ms.len() as int, k);
}

/// No two adjacent separators anywhere in `s`.
pub open spec fn no_double_slash(s: Seq<char>) -> bool {
    forall|i: int| 0 <= i < s.len() - 1 ==> !(s[i] == '/' && #[trigger] s[i + 1] == '/')
}

/// The project root is in the normal form `ImportGlobArrayPlugin::new`
/// establishes: non-empty, and either the bare root or free of a trailing
/// separator.
pub open spec fn normalized_root(cwd: Seq<char>) -> bool {
    cwd.len() > 0 && (cwd == seq!['/'] || cwd[cwd.len() - 1] != '/')
}

/// Repeated separators never survive collapsing.
pub proof fn lemma_collapse_no_double(s: Seq<char>)
    ensures
        no_double_slash(collapse_slashes(s)),
    decreases s.len(),
{
    if s.len() == 0 {
    } else if s.len() >= 2 && s[0] == '/' && s[1] == '/' {
        lemma_collapse_no_double(s.drop_first());
    } else {
        lemma_collapse_no_double(s.drop_first());
        let c = collapse_slashes(s.drop_first());
        let r = collapse_slashes(s);
        assert(r == seq![s[0]] + c);
        assert forall|i: int| 0 <= i < r.len() - 1 implies !(r[i] == '/' && #[trigger] r[i + 1]
            == '/') by {
            if i == 0 {
                if s.len() >= 2 {
                    lemma_collapse_first(s.drop_first());
                    assert(r[1] == c[0]);
                    assert(c[0] == s[1]);
                }
            } else {
                let j = i - 1;
                assert(r[i] == c[j]);
                assert(r[i + 1] == c[j + 1]);
                assert(!(c[j] == '/' && c[j + 1] == '/'));
            }
        }
    }
}

/// Sandbox-containment law, resolution side: for a project root in the
/// normal form the constructor establishes, whatever `get_paths_model`
/// resolves has an absolute path that lies under the project root. Together
/// with the escape behaviour of the search-path builder (`None`, and the
/// statement abandoned, whenever the normalized pattern leaves the root),
/// nothing the transform emits refers outside the root.
pub proof fn lemma_sandbox_containment(cwd: Seq<char>, file: Seq<char>, m: Seq<char>)
    requires
        normalized_root(cwd),
    ensures
        get_paths_model(cwd, file, m) matches Some(p) ==> path_has_prefix(p.absolute_path, cwd),
{
    reveal_strlit("/cwd");
    if get_paths_model(cwd, file, m) is Some {
        let p = collapse_slashes(m);
        lemma_collapse_no_double(m);
        let stripped = if path_has_prefix(p, cwd_marker()) {
            strip_path_prefix(p, cwd_marker())
        } else {
            p
        };
        let joined = join_path(cwd, stripped);
        let rel = strip_path_prefix(joined, cwd);
        let abs = join_path(cwd, rel);
        if cwd == seq!['/'] {
            assert(path_has_prefix(joined, cwd));
            assert(abs.len() > 0 && abs[0] == '/') by {
                if rel.len() > 0 && rel[0] == '/' {
                    assert(abs == rel);
                } else {
                    assert(abs == cwd + rel);
                    assert(abs[0] == cwd[0]);
                }
            }
            assert(path_has_prefix(abs, cwd)) by {
                assert(abs.subrange(0, 1) =~= seq![abs[0]]);
            }
            return ;
        }
        assert(no_double_slash(stripped)) by {
            if path_has_prefix(p, cwd_marker()) && p != cwd_marker() {
                assert forall|i: int|
                    0 <= i < stripped.len() - 1 implies !(stripped[i] == '/'
                    && #[trigger] stripped[i + 1] == '/') by {
                    let j = i + 5;
                    assert(stripped[i] == p[j]);
                    assert(stripped[i + 1] == p[j + 1]);
                    assert(!(p[j] == '/' && p[j + 1] == '/'));
                }
            }
        }
        assert(rel.len() > 0 ==> rel[0] != '/') by {
            if rel.len() > 0 {
                if stripped.len() > 0 && stripped[0] == '/' {
                    assert(joined == stripped);
                    assert(joined != cwd);
                    assert(joined[cwd.len() as int] == '/');
                    assert(rel[0] == joined[cwd.len() as int + 1]);
                } else if cwd.len() == 0 {
                } else {
                    assert(joined == cwd + seq!['/'] + stripped);
                    assert(joined != cwd);
                    assert(rel =~= stripped) by {
                        assert forall|j: int| 0 <= j < rel.len() implies rel[j] == stripped[j]
                            by {
                            assert(rel[j] == joined[cwd.len() as int + 1 + j]);
                        }
                        assert(rel.len() == stripped.len());
                    }
                }
            }
        }
        if rel.len() == 0 {
            assert(abs == cwd + seq!['/'] + rel);
            assert(abs.len() == cwd.len() + 1);
            assert(abs.subrange(0, cwd.len() as int) =~= cwd);
            assert(abs[cwd.len() as int] == '/');
            assert(path_has_prefix(abs, cwd));
        } else {
            assert(abs == cwd + seq!['/'] + rel);
            assert(abs.len() > cwd.len());
            assert(abs.subrange(0, cwd.len() as int) =~= cwd);
            assert(abs[cwd.len() as int] == '/');
            assert(path_has_prefix(abs, cwd));
        }
    }
}

/// The placeholder bound at position `j` of a generated specifier list.
pub open spec fn gen_ph_at(gen: Seq<SpecifierModel>, j: int) -> Option<Seq<char>> {
    if 0 <= j < gen.len() {
        Some(local_model(gen[j]))
    } else {
        None
    }
}

/// Every local in a generated specifier list was minted in `(lo, hi]`.
pub open spec fn gen_in_range(gen: Seq<SpecifierModel>, lo: nat, hi: nat) -> bool {
    forall|j: int| (#[trigger] gen_ph_at(gen, j)) is Some ==> exists|c: nat|
        lo < c <= hi && gen_ph_at(gen, j) == Some(iga_name(c))
}

/// The placeholder bound at position `(i, j)` of the generated imports.
pub open spec fn import_ph_at(ims: Seq<ImportModel>, i: int, j: int) -> Option<Seq<char>> {
    if 0 <= i < ims.len() && 0 <= j < ims[i].specifiers.len() {
        Some(local_model(ims[i].specifiers[j]))
    } else {
        None
    }
}

/// Every local bound by the generated imports was minted in `(lo, hi]`.
pub open spec fn import_phs_in_range(ims: Seq<ImportModel>, lo: nat, hi: nat) -> bool {
    forall|i: int, j: int| (#[trigger] import_ph_at(ims, i, j)) is Some ==> exists|c: nat|
        lo < c <= hi && import_ph_at(ims, i, j) == Some(iga_name(c))
}

/// No two positions of the generated imports bind the same local.
pub open spec fn import_phs_distinct(ims: Seq<ImportModel>) -> bool {
    forall|i1: int, j1: int, i2: int, j2: int|
        #![trigger import_ph_at(ims, i1, j1), import_ph_at(ims, i2, j2)]
        import_ph_at(ims, i1, j1) is Some && import_ph_at(ims, i1, j1) == import_ph_at(
            ims,
            i2,
            j2,
        ) ==> (i1 == i2 && j1 == j2)
}

proof fn lemma_specs_prefix_gen(
    p0: PassModel,
    specs: Seq<SpecifierModel>,
    paths: PathsModel,
    n: int,
)
    requires
        p0.gen.len() == 0,
    ensures
        ({
            let p2 = specs_prefix(p0, specs, paths, n);
            &&& gen_in_range(p2.gen, p0.counter, p2.counter)
            &&& forall|j1: int, j2: int|
                #![trigger gen_ph_at(p2.gen, j1), gen_ph_at(p2.gen, j2)]
                gen_ph_at(p2.gen, j1) is Some && gen_ph_at(p2.gen, j1) == gen_ph_at(p2.gen, j2)
                    ==> j1 == j2
        }),
    decreases n,
{
    if n > 0 {
        lemma_specs_prefix_gen(p0, specs, paths, n - 1);
        lemma_counter_monotone(p0, specs, paths, n - 1);
        let p = specs_prefix(p0, specs, paths, n - 1);
        let p2 = specs_prefix(p0, specs, paths, n);
        let s = specs[n - 1];
        if !is_meta_model(s) {
            let c = p.counter + 1;
            assert(local_model(with_local(s, iga_name(c))) == iga_name(c));
            assert forall|j: int| (#[trigger] gen_ph_at(p2.gen, j)) is Some implies exists|c2: nat|
                p0.counter < c2 <= p2.counter && gen_ph_at(p2.gen, j) == Some(iga_name(c2)) by {
                if j < p.gen.len() {
                    assert(gen_ph_at(p2.gen, j) == gen_ph_at(p.gen, j));
                    let c2 = choose|c2: nat|
                        p0.counter < c2 <= p.counter && gen_ph_at(p.gen, j) == Some(iga_name(c2));
                    assert(p0.counter < c2 <= p2.counter && gen_ph_at(p2.gen, j) == Some(
                        iga_name(c2),
                    ));
                } else {
                    assert(gen_ph_at(p2.gen, j) == Some(iga_name(c)));
                    assert(p0.counter < c <= p2.counter && gen_ph_at(p2.gen, j) == Some(
                        iga_name(c),
                    ));
                }
            }
            assert forall|j1: int, j2: int|
                #![trigger gen_ph_at(p2.gen, j1), gen_ph_at(p2.gen, j2)]
                gen_ph_at(p2.gen, j1) is Some && gen_ph_at(p2.gen, j1) == gen_ph_at(
                    p2.gen,
                    j2,
                ) implies j1 == j2 by {
                if j1 < p.gen.len() && j2 < p.gen.len() {
                    assert(gen_ph_at(p2.gen, j1) == gen_ph_at(p.gen, j1));
                    assert(gen_ph_at(p2.gen, j2) == gen_ph_at(p.gen, j2));
                } else if j1 < p.gen.len() && j2 == p.gen.len() {
                    let c1 = choose|c1: nat|
                        p0.counter < c1 <= p.counter && gen_ph_at(p.gen, j1) == Some(iga_name(c1));
                    assert(iga_name(c1) == iga_name(c));
                    lemma_iga_injective(c1, c);
                } else if j2 < p.gen.len() && j1 == p.gen.len() {
                    let c2 = choose|c2: nat|
                        p0.counter < c2 <= p.counter && gen_ph_at(p.gen, j2) == Some(iga_name(c2));
                    assert(iga_name(c2) == iga_name(c));
                    lemma_iga_injective(c2, c);
                }
            }
        }
    }
}

proof fn lemma_counter_monotone(p0: PassModel, specs: Seq<SpecifierModel>, paths: PathsModel, n: int)
    ensures
        p0.counter <= specs_prefix(p0, specs, paths, n).counter,
    decreases n,
{
    if n > 0 {
        lemma_counter_monotone(p0, specs, paths, n - 1);
    }
}

proof fn lemma_expand_prefix_gen(
    st0: StateModel,
    cwd: Seq<char>,
    file: Seq<char>,
    specs: Seq<SpecifierModel>,
    ms: Seq<Seq<char>>,
    n: int,
    lo: nat,
)
    requires
        import_phs_in_range(st0.imports, lo, st0.counter),
        import_phs_distinct(st0.imports),
        lo <= st0.counter,
    ensures
        ({
            let st2 = expand_prefix(st0, cwd, file, specs, ms, n);
            &&& st0.counter <= st2.counter
            &&& lo <= st2.counter
            &&& import_phs_in_range(st2.imports, lo, st2.counter)
            &&& import_phs_distinct(st2.imports)
        }),
    decreases n,
{
    if n > 0 {
        lemma_expand_prefix_gen(st0, cwd, file, specs, ms, n - 1, lo);
        let st_pre = expand_prefix(st0, cwd, file, specs, ms, n - 1);
        let st2 = expand_prefix(st0, cwd, file, specs, ms, n);
        match get_paths_model(cwd, file, ms[n - 1]) {
            None => {},
            Some(paths) => {
                let p0 = PassModel {
                    counter: st_pre.counter,
                    names: st_pre.names,
                    meta: st_pre.meta,
                    gen: Seq::empty(),
                };
                lemma_specs_prefix_gen(p0, specs, paths, specs.len() as int);
                lemma_counter_monotone(p0, specs, paths, specs.len() as int);
                let p = specs_prefix(p0, specs, paths, specs.len() as int);
                if p.gen.len() == 0 {
                    assert forall|i: int, j: int| (#[trigger] import_ph_at(
                        st2.imports,
                        i,
                        j,
                    )) is Some implies exists|c: nat|
                        lo < c <= st2.counter && import_ph_at(st2.imports, i, j) == Some(
                            iga_name(c),
                        ) by {
                        let c = choose|c: nat|
                            lo < c <= st_pre.counter && import_ph_at(st_pre.imports, i, j)
                                == Some(iga_name(c));
                        assert(lo < c <= st2.counter && import_ph_at(st2.imports, i, j) == Some(
                            iga_name(c),
                        ));
                    }
                }
                if p.gen.len() > 0 {
                    let ims = st_pre.imports.push(
                        ImportModel { src: paths.imported_path, specifiers: p.gen },
                    );
                    assert forall|i: int, j: int| (#[trigger] import_ph_at(
                        ims,
                        i,
                        j,
                    )) is Some implies exists|c: nat|
                        lo < c <= p.counter && import_ph_at(ims, i, j) == Some(iga_name(c)) by {
                        if i < st_pre.imports.len() {
                            assert(import_ph_at(ims, i, j) == import_ph_at(st_pre.imports, i, j));
                            let c = choose|c: nat|
                                lo < c <= st_pre.counter && import_ph_at(st_pre.imports, i, j)
                                    == Some(iga_name(c));
                            assert(lo < c <= p.counter && import_ph_at(ims, i, j) == Some(
                                iga_name(c),
                            ));
                        } else {
                            assert(import_ph_at(ims, i, j) == gen_ph_at(p.gen, j));
                            let c = choose|c: nat|
                                st_pre.counter < c <= p.counter && gen_ph_at(p.gen, j) == Some(
                                    iga_name(c),
                                );
                            assert(lo < c <= p.counter && import_ph_at(ims, i, j) == Some(
                                iga_name(c),
                            ));
                        }
                    }
                    assert forall|i1: int, j1: int, i2: int, j2: int|
                        #![trigger import_ph_at(ims, i1, j1), import_ph_at(ims, i2, j2)]
                        import_ph_at(ims, i1, j1) is Some && import_ph_at(ims, i1, j1)
                            == import_ph_at(ims, i2, j2) implies (i1 == i2 && j1 == j2) by {
                        let old1 = i1 < st_pre.imports.len();
                        let old2 = i2 < st_pre.imports.len();
                        if old1 && old2 {
                            assert(import_ph_at(ims, i1, j1) == import_ph_at(
                                st_pre.imports,
                                i1,
                                j1,
                            ));
                            assert(import_ph_at(ims, i2, j2) == import_ph_at(
                                st_pre.imports,
                                i2,
                                j2,
                            ));
                        } else if old1 && !old2 {
                            let ca = choose|ca: nat|
                                lo < ca <= st_pre.counter && import_ph_at(st_pre.imports, i1, j1)
                                    == Some(iga_name(ca));
                            let cb = choose|cb: nat|
                                st_pre.counter < cb <= p.counter && gen_ph_at(p.gen, j2) == Some(
                                    iga_name(cb),
                                );
                            assert(import_ph_at(ims, i2, j2) == gen_ph_at(p.gen, j2));
                            assert(iga_name(ca) == iga_name(cb));
                            lemma_iga_injective(ca, cb);
                        } else if !old1 && old2 {
                            let ca = choose|ca: nat|
                                lo < ca <= st_pre.counter && import_ph_at(st_pre.imports, i2, j2)
                                    == Some(iga_name(ca));
                            let cb = choose|cb: nat|
                                st_pre.counter < cb <= p.counter && gen_ph_at(p.gen, j1) == Some(
                                    iga_name(cb),
                                );
                            assert(import_ph_at(ims, i1, j1) == gen_ph_at(p.gen, j1));
                            assert(iga_name(ca) == iga_name(cb));
                            lemma_iga_injective(ca, cb);
                        } else {
                            assert(import_ph_at(ims, i1, j1) == gen_ph_at(p.gen, j1));
                            assert(import_ph_at(ims, i2, j2) == gen_ph_at(p.gen, j2));
                        }
                    }
                }
            },
        }
    }
}

/// Uniqueness law, generated-import side: across one statement's expansion,
/// no two specifiers of the generated import statements bind the same
/// placeholder local, and every such local was minted for a counter value in
/// `(c0, final counter]` — so, by the same counter ranges, never one minted
/// by another statement of the file.
pub proof fn lemma_generated_locals_unique(
    c0: nat,
    cwd: Seq<char>,
    file: Seq<char>,
    specs: Seq<SpecifierModel>,
    ms: Seq<Seq<char>>,
)
    ensures
        ({
            let st = expand_model(c0, cwd, file, specs, ms);
            &&& c0 <= st.counter
            &&& import_phs_in_range(st.imports, c0, st.counter)
            &&& import_phs_distinct(st.imports)
        }),
{
    let st0 = init_state(c0);
    assert(forall|i: int, j: int| import_ph_at(st0.imports, i, j) is None);
    lemma_expand_prefix_gen(st0, cwd, file, specs, ms, ms.len() as int, c0);
}

/// A well-formed group sequence: no group is empty, and no binding name owns
/// two groups.
pub open spec fn groups_wf(gs: Seq<GroupModel>) -> bool {
    &&& forall|i: int| 0 <= i < gs.len() ==> (#[trigger] gs[i]).elems.len() > 0
    &&& forall|i: int, j: int|
        #![trigger gs[i].key, gs[j].key]
        0 <= i < j < gs.len() ==> gs[i].key != gs[j].key
}

proof fn lemma_find_group_miss(gs: Seq<GroupModel>, key: Seq<char>)
    ensures
        find_group(gs, key) < 0 ==> forall|j: int|
            0 <= j < gs.len() ==> (#[trigger] gs[j]).key != key,
    decreases gs.len(),
{
    if gs.len() > 0 && gs[0].key != key {
        lemma_find_group_miss(gs.drop_first(), key);
        if find_group(gs, key) < 0 {
            assert forall|j: int| 0 <= j < gs.len() implies (#[trigger] gs[j]).key != key by {
                if j > 0 {
                    assert(gs.drop_first()[j - 1] == gs[j]);
                }
            }
        }
    }
}

proof fn lemma_upsert_wf(gs: Seq<GroupModel>, key: Seq<char>, el: ElemModel)
    requires
        groups_wf(gs),
    ensures
        groups_wf(upsert_model(gs, key, el)),
{
    lemma_find_group_bounds(gs, key);
    let gs2 = upsert_model(gs, key, el);
    let i = find_group(gs, key);
    if i < 0 {
        lemma_find_group_miss(gs, key);
        assert(gs2[gs.len() as int].elems =~= seq![el]);
        assert forall|a: int, b: int|
            #![trigger gs2[a].key, gs2[b].key]
            0 <= a < b < gs2.len() implies gs2[a].key != gs2[b].key by {
            if b < gs.len() {
                assert(gs2[a] == gs[a] && gs2[b] == gs[b]);
            } else {
                assert(gs2[a] == gs[a] && gs2[b].key == key);
            }
        }
    } else {
        assert(gs2[i].elems == gs[i].elems.push(el));
        assert forall|a: int, b: int|
            #![trigger gs2[a].key, gs2[b].key]
            0 <= a < b < gs2.len() implies gs2[a].key != gs2[b].key by {
            assert(gs2[a].key == gs[a].key && gs2[b].key == gs[b].key);
        }
    }
}

proof fn lemma_specs_prefix_wf(
    p0: PassModel,
    specs: Seq<SpecifierModel>,
    paths: PathsModel,
    n: int,
)
    requires
        groups_wf(p0.names),
        groups_wf(p0.meta),
    ensures
        groups_wf(specs_prefix(p0, specs, paths, n).names),
        groups_wf(specs_prefix(p0, specs, paths, n).meta),
    decreases n,
{
    if n > 0 {
        lemma_specs_prefix_wf(p0, specs, paths, n - 1);
        let p = specs_prefix(p0, specs, paths, n - 1);
        let s = specs[n - 1];
        if is_meta_model(s) {
            lemma_upsert_wf(
                p.meta,
                local_model(s),
                ElemModel::MetaRecord {
                    absolute_path: paths.absolute_path,
                    imported_path: paths.imported_path,
                },
            );
        } else {
            lemma_upsert_wf(
                p.names,
                local_model(s),
                ElemModel::ValueRef { placeholder: iga_name(p.counter + 1) },
            );
        }
    }
}

proof fn lemma_expand_prefix_wf(
    st0: StateModel,
    cwd: Seq<char>,
    file: Seq<char>,
    specs: Seq<SpecifierModel>,
    ms: Seq<Seq<char>>,
    n: int,
)
    requires
        groups_wf(st0.names),
        groups_wf(st0.meta),
    ensures
        groups_wf(expand_prefix(st0, cwd, file, specs, ms, n).names),
        groups_wf(expand_prefix(st0, cwd, file, specs, ms, n).meta),
    decreases n,
{
    if n > 0 {
        lemma_expand_prefix_wf(st0, cwd, file, specs, ms, n - 1);
        let st_pre = expand_prefix(st0, cwd, file, specs, ms, n - 1);
        match get_paths_model(cwd, file, ms[n - 1]) {
            None => {},
            Some(paths) => {
                let p0 = PassModel {
                    counter: st_pre.counter,
                    names: st_pre.names,
                    meta: st_pre.meta,
                    gen: Seq::empty(),
                };
                lemma_specs_prefix_wf(p0, specs, paths, specs.len() as int);
            },
        }
    }
}

/// Cardinality law, completeness side: the group lists are well formed — no
/// empty group, no binding name twice — and a binding name owns a group in
/// the value (or metadata) list exactly when some match resolved and some
/// specifier binds that name in that mode.
pub proof fn lemma_group_per_binding(
    c0: nat,
    cwd: Seq<char>,
    file: Seq<char>,
    specs: Seq<SpecifierModel>,
    ms: Seq<Seq<char>>,
    k: Seq<char>,
)
    ensures
        ({
            let st = expand_model(c0, cwd, file, specs, ms);
            let rc = resolved_count(cwd, file, ms, ms.len() as int);
            let sl = specs.len() as int;
            &&& groups_wf(st.names)
            &&& groups_wf(st.meta)
            &&& (find_group(st.names, k) >= 0 <==> rc * count_locals(specs, sl, k, false) > 0)
            &&& (find_group(st.meta, k) >= 0 <==> rc * count_locals(specs, sl, k, true) > 0)
        }),
{
    let st = expand_model(c0, cwd, file, specs, ms);
    lemma_expand_prefix_wf(init_state(c0), cwd, file, specs, ms, ms.len() as int);
    lemma_cardinality(c0, cwd, file, specs, ms, k);
    lemma_find_group_bounds(st.names, k);
    lemma_find_group_bounds(st.meta, k);
}

/// The absolute path recorded at a position of the group sequence, if that
/// position holds a metadata record.
pub open spec fn abs_at(gs: Seq<GroupModel>, g: int, e: int) -> Option<Seq<char>> {
    if 0 <= g < gs.len() && 0 <= e < gs[g].elems.len() {
        match gs[g].elems[e] {
            ElemModel::MetaRecord { absolute_path, .. } => Some(absolute_path),
            ElemModel::ValueRef { .. } => None,
        }
    } else {
        None
    }
}

/// Every metadata record in `gs` refers to an absolute path under `cwd`.
pub open spec fn metas_contained(gs: Seq<GroupModel>, cwd: Seq<char>) -> bool {
    forall|g: int, e: int| (#[trigger] abs_at(gs, g, e)) matches Some(a) ==> path_has_prefix(
        a,
        cwd,
    )
}

proof fn lemma_upsert_abs(gs: Seq<GroupModel>, key: Seq<char>, el: ElemModel, cwd: Seq<char>)
    requires
        metas_contained(gs, cwd),
        match el {
            ElemModel::MetaRecord { absolute_path, .. } => path_has_prefix(absolute_path, cwd),
            ElemModel::ValueRef { .. } => true,
        },
    ensures
        metas_contained(upsert_model(gs, key, el), cwd),
{
    lemma_find_group_bounds(gs, key);
    let gs2 = upsert_model(gs, key, el);
    let i = find_group(gs, key);
    assert forall|g: int, e: int| (#[trigger] abs_at(gs2, g, e)) is Some implies path_has_prefix(
        abs_at(gs2, g, e)->Some_0,
        cwd,
    ) by {
        if i < 0 {
            if g == gs.len() {
                assert(gs2[g].elems =~= seq![el]);
            } else {
                assert(abs_at(gs2, g, e) == abs_at(gs, g, e));
            }
        } else {
            if g == i {
                assert(gs2[g].elems =~= gs[i].elems.push(el));
                if e < gs[i].elems.len() {
                    assert(abs_at(gs2, g, e) == abs_at(gs, g, e));
                }
            } else {
                assert(abs_at(gs2, g, e) == abs_at(gs, g, e));
            }
        }
    }
}

proof fn lemma_specs_prefix_abs(
    p0: PassModel,
    specs: Seq<SpecifierModel>,
    paths: PathsModel,
    n: int,
    cwd: Seq<char>,
)
    requires
        metas_contained(p0.meta, cwd),
        path_has_prefix(paths.absolute_path, cwd),
    ensures
        metas_contained(specs_prefix(p0, specs, paths, n).meta, cwd),
    decreases n,
{
    if n > 0 {
        lemma_specs_prefix_abs(p0, specs, paths, n - 1, cwd);
        let p = specs_prefix(p0, specs, paths, n - 1);
        let s = specs[n - 1];
        if is_meta_model(s) {
            lemma_upsert_abs(
                p.meta,
                local_model(s),
                ElemModel::MetaRecord {
                    absolute_path: paths.absolute_path,
                    imported_path: paths.imported_path,
                },
                cwd,
            );
        }
    }
}

/// Sandbox-containment law, engine side: for a project root in the normal
/// form the constructor establishes, every metadata record the expansion
/// emits refers to an absolute path under the project root.
pub proof fn lemma_expansion_metas_contained(
    c0: nat,
    cwd: Seq<char>,
    file: Seq<char>,
    specs: Seq<SpecifierModel>,
    ms: Seq<Seq<char>>,
)
    requires
        normalized_root(cwd),
    ensures
        metas_contained(expand_model(c0, cwd, file, specs, ms).meta, cwd),
{
    lemma_expand_prefix_abs(init_state(c0), cwd, file, specs, ms, ms.len() as int);
}

proof fn lemma_expand_prefix_abs(
    st0: StateModel,
    cwd: Seq<char>,
    file: Seq<char>,
    specs: Seq<SpecifierModel>,
    ms: Seq<Seq<char>>,
    n: int,
)
    requires
        normalized_root(cwd),
        n <= ms.len(),
        metas_contained(st0.meta, cwd),
    ensures
        metas_contained(expand_prefix(st0, cwd, file, specs, ms, n).meta, cwd),
    decreases n,
{
    if n > 0 {
        lemma_expand_prefix_abs(st0, cwd, file, specs, ms, n - 1);
        let st_pre = expand_prefix(st0, cwd, file, specs, ms, n - 1);
        match get_paths_model(cwd, file, ms[n - 1]) {
            None => {},
            Some(paths) => {
                lemma_sandbox_containment(cwd, file, ms[n - 1]);
                let p0 = PassModel {
                    counter: st_pre.counter,
                    names: st_pre.names,
                    meta: st_pre.meta,
                    gen: Seq::empty(),
                };
                lemma_specs_prefix_abs(p0, specs, paths, specs.len() as int, cwd);
            },
        }
    }
}

/// Ordering-stability law: the expansion is a function of the counter, the
/// project root, the specifier list and the match list alone, so re-running
/// the transform on an unchanged match enumeration yields identical output.
pub proof fn lemma_ordering_stability(
    c0: nat,
    cwd: Seq<char>,
    file: Seq<char>,
    specs: Seq<SpecifierModel>,
    ms: Seq<Seq<char>>,
    c1: nat,
    t1: TransformedStatements,
    c2: nat,
    t2: TransformedStatements,
)
    requires
        expansion_of(c0, cwd, file, specs, ms, c1, t1),
        expansion_of(c0, cwd, file, specs, ms, c2, t2),
    ensures
        c1 == c2,
        t1.imports.deep_view() == t2.imports.deep_view(),
        t1.names.deep_view() == t2.names.deep_view(),
        t1.meta.deep_view() == t2.meta.deep_view(),
{
}

} // verus!
