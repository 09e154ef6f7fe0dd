//! The aggregation builder: ordered groups keyed by binding name, each
//! collecting placeholder references or metadata records in recorded order,
//! and their rendering as constant array declarations.
use crate::paths::ImportPaths;
use crate::paths::PathsModel;
use vstd::prelude::*;

verus! {

/// One element of an aggregation group: a reference to a generated
/// placeholder, or an inline metadata record of the two resolved paths.
pub enum ArrayElement {
    ValueRef { placeholder: String },
    MetaRecord { absolute_path: String, imported_path: String },
}

/// The mathematical shape of an element.
pub enum ElemModel {
    ValueRef { placeholder: Seq<char> },
    MetaRecord { absolute_path: Seq<char>, imported_path: Seq<char> },
}

impl View for ArrayElement {
    type V = ElemModel;

    open spec fn view(&self) -> ElemModel {
        match self {
            ArrayElement::ValueRef { placeholder } => ElemModel::ValueRef {
                placeholder: placeholder@,
            },
            ArrayElement::MetaRecord { absolute_path, imported_path } => ElemModel::MetaRecord {
                absolute_path: absolute_path@,
                imported_path: imported_path@,
            },
        }
    }
}

impl DeepView for ArrayElement {
    type V = ElemModel;

    open spec fn deep_view(&self) -> ElemModel {
        self.view()
    }
}

/// One aggregation group: a binding name and its recorded elements.
pub struct AggGroup {
    pub key: String,
    pub elems: Vec<ArrayElement>,
}

/// The mathematical shape of a group.
pub struct GroupModel {
    pub key: Seq<char>,
    pub elems: Seq<ElemModel>,
}

impl DeepView for AggGroup {
    type V = GroupModel;

    open spec fn deep_view(&self) -> GroupModel {
        GroupModel { key: self.key@, elems: self.elems.deep_view() }
    }
}

/// One rendered constant declaration: the group key as the bound name, the
/// group's elements as the array-literal initializer, in recorded order.
pub struct ConstArrayDecl {
    pub name: String,
    pub elems: Vec<ArrayElement>,
}

/// The mathematical shape of a rendered declaration.
pub struct DeclModel {
    pub name: Seq<char>,
    pub elems: Seq<ElemModel>,
}

impl DeepView for ConstArrayDecl {
    type V = DeclModel;

    open spec fn deep_view(&self) -> DeclModel {
        DeclModel { name: self.name@, elems: self.elems.deep_view() }
    }
}

/// Index of the first group with key `key`, or `-1` if there is none.
pub open spec fn find_group(gs: Seq<GroupModel>, key: Seq<char>) -> int
    decreases gs.len(),
{
    if gs.len() == 0 {
        -1
    } else if gs[0].key == key {
        0
    } else {
        let r = find_group(gs.drop_first(), key);
        if r < 0 {
            -1
        } else {
            r + 1
        }
    }
}

/// Append `e` to the group for `key`, creating the group at the end on first
/// use; group-creation order is preserved.
pub open spec fn upsert_model(gs: Seq<GroupModel>, key: Seq<char>, e: ElemModel) -> Seq<
    GroupModel,
> {
    let i = find_group(gs, key);
    if i < 0 {
        gs.push(GroupModel { key, elems: seq![e] })
    } else {
        gs.update(i, GroupModel { key, elems: gs[i].elems.push(e) })
    }
}

pub proof fn lemma_find_group_at(gs: Seq<GroupModel>, key: Seq<char>, i: int)
    requires
        0 <= i < gs.len(),
        gs[i].key == key,
        forall|j: int| 0 <= j < i ==> gs[j].key != key,
    ensures
        find_group(gs, key) == i,
    decreases i,
{
    if i > 0 {
        lemma_find_group_at(gs.drop_first(), key, i - 1);
    }
}

pub proof fn lemma_find_group_none(gs: Seq<GroupModel>, key: Seq<char>)
    requires
        forall|j: int| 0 <= j < gs.len() ==> gs[j].key != key,
    ensures
        find_group(gs, key) == -1,
    decreases gs.len(),
{
    if gs.len() > 0 {
        lemma_find_group_none(gs.drop_first(), key);
    }
}

/// Record `value` under `key`, creating the group on first use.
pub fn upsert_map(map: &mut Vec<AggGroup>, key: &String, value: ArrayElement)
    ensures
        final(map).deep_view() == upsert_model(old(map).deep_view(), key@, value.deep_view()),
{
    let n = map.len();
    let mut i: usize = 0;
    while i < n
        invariant
            i <= n,
            n == map@.len(),
            map@ == old(map)@,
            forall|j: int| 0 <= j < i ==> map.deep_view()[j].key != key@,
        decreases n - i,
    {
        if map[i].key == *key {
            proof {
                lemma_find_group_at(map.deep_view(), key@, i as int);
            }
            let g = &mut map[i];
            g.elems.push(value);
            proof {
                assert(map.deep_view() =~= upsert_model(
                    old(map).deep_view(),
                    key@,
                    value.deep_view(),
                )) by {
                    assert(map.deep_view().len() == old(map).deep_view().len());
                    assert(map@[i as int].deep_view() == GroupModel {
                        key: key@,
                        elems: old(map).deep_view()[i as int].elems.push(value.deep_view()),
                    }) by {
                        assert(map@[i as int].elems.deep_view() =~= old(map)@[i as int]
                            .elems
                            .deep_view()
                            .push(value.deep_view()));
                    }
                }
            }
            return ;
        }
        i += 1;
    }
    proof {
        lemma_find_group_none(map.deep_view(), key@);
    }
    let mut elems: Vec<ArrayElement> = Vec::new();
    elems.push(value);
    map.push(AggGroup { key: key.clone(), elems });
    proof {
        assert(map.deep_view() =~= upsert_model(old(map).deep_view(), key@, value.deep_view()))
            by {
            assert(map@[map@.len() - 1].elems.deep_view() =~= seq![value.deep_view()]);
        }
    }
}

/// The declarations rendered from a group sequence, in group-creation order.
pub open spec fn decls_of(gs: Seq<GroupModel>) -> Seq<DeclModel> {
    Seq::new(gs.len(), |i: int| DeclModel { name: gs[i].key, elems: gs[i].elems })
}

/// Render each group, in group-creation order, as one constant declaration
/// whose bound name is the group key and whose initializer holds the group's
/// elements in recorded order.
pub fn to_var_decls(map: Vec<AggGroup>) -> (r: Vec<ConstArrayDecl>)
    ensures
        r.deep_view() == decls_of(map.deep_view()),
{
    let ghost g0 = map.deep_view();
    let mut m = map;
    let mut r: Vec<ConstArrayDecl> = Vec::new();
    while m.len() > 0
        invariant
            r.deep_view() + decls_of(m.deep_view()) =~= decls_of(g0),
        decreases m@.len(),
    {
        let ghost m_pre = m.deep_view();
        let ghost r_pre = r.deep_view();
        let g = m.remove(0);
        r.push(ConstArrayDecl { name: g.key, elems: g.elems });
        proof {
            assert(m.deep_view() =~= m_pre.drop_first());
            assert(r.deep_view() =~= r_pre.push(DeclModel {
                name: m_pre[0].key,
                elems: m_pre[0].elems,
            }));
            assert(r.deep_view() + decls_of(m.deep_view()) =~= decls_of(g0));
        }
    }
    proof {
        assert(r.deep_view() =~= decls_of(g0));
    }
    r
}

/// The metadata record for one resolved match: an object with exactly the two
/// string fields `absolutePath` and `importedPath`, copied verbatim.
pub fn get_import_map_expr(import_paths: &ImportPaths) -> (r: ArrayElement)
    ensures
        r@ == (ElemModel::MetaRecord {
            absolute_path: import_paths.absolute_path@,
            imported_path: import_paths.imported_path@,
        }),
{
    ArrayElement::MetaRecord {
        absolute_path: import_paths.absolute_path.clone(),
        imported_path: import_paths.imported_path.clone(),
    }
}

} // verus!
