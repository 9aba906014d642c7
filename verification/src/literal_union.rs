//! Structural merge of an anonymous-interface union into a single
//! interface body.
//!
//! A union of object-type branches
//!
//! ```ts
//! type EmailAttachment =
//!   | { disposition: "inline"; contentId: string; filename: string; }
//!   | { disposition: "attachment"; contentId?: undefined; filename: string; };
//! ```
//!
//! is reduced to one interface whose members are every property that
//! appears in any branch:
//!
//! * a property is required iff it is present and required in every
//!   branch;
//! * its type is the union of its types across the branches holding it;
//! * it is writable iff it is writable in every branch holding it;
//! * methods keep every signature, grouped by name;
//! * the first index signature wins;
//! * statics pass through from the first branch holding them.
//!
//! Names keep their order of first appearance across the branches.

use vstd::prelude::*;
use indexmap::IndexMap;
use crate::ir::{
    copy_opt_string, opt_str_view, ty_eq, tys_view, GetterMember, Member, MemberV, SetterMember,
    TyV, TypeRef,
};
use crate::types::{simplify_union, simplify_union_spec};

verus! {

// ---------------------------------------------------------------------
// The ordered name map of `indexmap`
// ---------------------------------------------------------------------

#[verifier::external_type_specification]
#[verifier::external_body]
#[verifier::reject_recursive_types(K)]
#[verifier::reject_recursive_types(V)]
#[verifier::reject_recursive_types(S)]
pub struct ExIndexMap<K, V, S>(IndexMap<K, V, S>);

/// The keys of an `IndexMap` used as an ordered name set, in their
/// order.
pub uninterp spec fn index_map_keys(m: IndexMap<String, ()>) -> Seq<Seq<char>>;

/// `IndexMap::new`: an empty map.
#[verifier::external_body]
fn name_map_new() -> (m: IndexMap<String, ()>)
    ensures
        index_map_keys(m) == Seq::<Seq<char>>::empty(),
{
    IndexMap::new()
}

/// `IndexMap::entry(key).or_default()`: a key not yet in the map is
/// appended at the end; a key already there keeps its place.
#[verifier::external_body]
fn name_map_insert(m: &mut IndexMap<String, ()>, key: String)
    ensures
        index_map_keys(*final(m)) == if index_map_keys(*old(m)).contains(key@) {
            index_map_keys(*old(m))
        } else {
            index_map_keys(*old(m)).push(key@)
        },
{
    m.entry(key).or_default();
}

/// `IndexMap::keys`: the keys in their order.
#[verifier::external_body]
fn name_map_keys(m: &IndexMap<String, ()>) -> (r: Vec<String>)
    ensures
        r@.map_values(|s: String| s@) == index_map_keys(*m),
{
    m.keys().cloned().collect()
}

/// `IndexMap::contains_key`.
#[verifier::external_body]
fn name_map_contains(m: &IndexMap<String, ()>, key: &str) -> (r: bool)
    ensures
        r == index_map_keys(*m).contains(key@),
{
    m.contains_key(key)
}

// ---------------------------------------------------------------------
// The model
// ---------------------------------------------------------------------

/// The kinds of named members.
#[derive(Clone, Copy, PartialEq, Eq, Debug)]
pub enum Slot {
    Getter,
    Setter,
    Method,
    StaticGetter,
    StaticSetter,
    StaticMethod,
}

/// The JS name of `m` when it is a member of kind `k`.
pub open spec fn named(m: MemberV, k: Slot) -> Option<Seq<char>> {
    match (m, k) {
        (MemberV::Getter { js_name, .. }, Slot::Getter) => Some(js_name),
        (MemberV::Setter { js_name, .. }, Slot::Setter) => Some(js_name),
        (MemberV::Method(c), Slot::Method) => Some(c.js_name),
        (MemberV::StaticGetter { js_name, .. }, Slot::StaticGetter) => Some(js_name),
        (MemberV::StaticSetter { js_name, .. }, Slot::StaticSetter) => Some(js_name),
        (MemberV::StaticMethod(c), Slot::StaticMethod) => Some(c.js_name),
        _ => None,
    }
}

pub open spec fn members_view(v: Seq<Member>) -> Seq<MemberV> {
    v.map_values(|m: Member| m@)
}

pub open spec fn branches_view(bs: Seq<Vec<Member>>) -> Seq<Seq<MemberV>> {
    bs.map_values(|b: Vec<Member>| members_view(b@))
}

/// All members of all branches, in order.
pub open spec fn flat(bs: Seq<Seq<MemberV>>) -> Seq<MemberV>
    decreases bs.len(),
{
    if bs.len() == 0 {
        seq![]
    } else {
        flat(bs.drop_last()) + bs.last()
    }
}

/// The names of the members of kind `k`, in order, repeats included.
pub open spec fn names_in(ms: Seq<MemberV>, k: Slot) -> Seq<Seq<char>>
    decreases ms.len(),
{
    if ms.len() == 0 {
        seq![]
    } else {
        let rest = names_in(ms.drop_last(), k);
        match named(ms.last(), k) {
            Some(n) => rest.push(n),
            None => rest,
        }
    }
}

/// Each name once, in order of first appearance.
pub open spec fn first_appearance(ns: Seq<Seq<char>>) -> Seq<Seq<char>>
    decreases ns.len(),
{
    if ns.len() == 0 {
        seq![]
    } else {
        let a = first_appearance(ns.drop_last());
        if a.contains(ns.last()) {
            a
        } else {
            a.push(ns.last())
        }
    }
}

/// The first member of kind `k` named `n`.
pub open spec fn find_named(ms: Seq<MemberV>, k: Slot, n: Seq<char>) -> Option<MemberV>
    decreases ms.len(),
{
    if ms.len() == 0 {
        None
    } else if named(ms[0], k) == Some(n) {
        Some(ms[0])
    } else {
        find_named(ms.drop_first(), k, n)
    }
}

/// Every member of kind `k` named `n`, in order.
pub open spec fn all_named(ms: Seq<MemberV>, k: Slot, n: Seq<char>) -> Seq<MemberV>
    decreases ms.len(),
{
    if ms.len() == 0 {
        seq![]
    } else {
        let rest = all_named(ms.drop_last(), k, n);
        if named(ms.last(), k) == Some(n) {
            rest.push(ms.last())
        } else {
            rest
        }
    }
}

/// The type a getter or setter carries.
pub open spec fn prop_ty(m: MemberV) -> TyV {
    match m {
        MemberV::Getter { ty, .. } => ty,
        MemberV::Setter { ty, .. } => ty,
        _ => TyV::Any,
    }
}

/// The doc comment of a getter or setter.
pub open spec fn prop_doc(m: MemberV) -> Option<Seq<char>> {
    match m {
        MemberV::Getter { doc, .. } => doc,
        MemberV::Setter { doc, .. } => doc,
        _ => None,
    }
}

pub open spec fn prop_optional(m: MemberV) -> bool {
    match m {
        MemberV::Getter { optional, .. } => optional,
        _ => false,
    }
}

/// The first doc comment among `ms`.
pub open spec fn first_doc(ms: Seq<MemberV>) -> Option<Seq<char>>
    decreases ms.len(),
{
    if ms.len() == 0 {
        None
    } else if prop_doc(ms[0]) is Some {
        prop_doc(ms[0])
    } else {
        first_doc(ms.drop_first())
    }
}

/// `Vec::dedup`: runs of equal neighbours collapse to one.
pub open spec fn dedup_runs(ts: Seq<TyV>) -> Seq<TyV>
    decreases ts.len(),
{
    if ts.len() == 0 {
        seq![]
    } else {
        let rest = dedup_runs(ts.drop_last());
        if rest.len() > 0 && rest.last() == ts.last() {
            rest
        } else {
            rest.push(ts.last())
        }
    }
}

/// Per-property branch types combined into one: none gives `any`, equal
/// neighbours collapse, one type stands for itself, more go through
/// union simplification.
pub open spec fn union_member_types_spec(ts: Seq<TyV>) -> TyV {
    let all = dedup_runs(ts);
    if all.len() == 0 {
        TyV::Any
    } else if all.len() == 1 {
        all[0]
    } else {
        simplify_union_spec(all)
    }
}

/// Across the branches, the first member of kind `k` named `n` of each
/// branch that has one.
pub open spec fn present_named(bs: Seq<Seq<MemberV>>, k: Slot, n: Seq<char>) -> Seq<MemberV>
    decreases bs.len(),
{
    if bs.len() == 0 {
        seq![]
    } else {
        let rest = present_named(bs.drop_last(), k, n);
        match find_named(bs.last(), k, n) {
            Some(m) => rest.push(m),
            None => rest,
        }
    }
}

/// Some branch has no member of kind `k` named `n`.
pub open spec fn absent_somewhere(bs: Seq<Seq<MemberV>>, k: Slot, n: Seq<char>) -> bool
    decreases bs.len(),
{
    bs.len() > 0 && (find_named(bs.last(), k, n) is None || absent_somewhere(bs.drop_last(), k, n))
}

/// Some branch has a getter named `n` but no setter: the property is
/// read-only there.
pub open spec fn readonly_in(bs: Seq<Seq<MemberV>>, n: Seq<char>) -> bool
    decreases bs.len(),
{
    bs.len() > 0 && ((find_named(bs.last(), Slot::Getter, n) is Some && find_named(
        bs.last(),
        Slot::Setter,
        n,
    ) is None) || readonly_in(bs.drop_last(), n))
}

/// Some member is an optional getter.
pub open spec fn any_optional(ms: Seq<MemberV>) -> bool
    decreases ms.len(),
{
    ms.len() > 0 && (prop_optional(ms.last()) || any_optional(ms.drop_last()))
}

pub open spec fn prop_tys(ms: Seq<MemberV>) -> Seq<TyV> {
    ms.map_values(|m: MemberV| prop_ty(m))
}

/// The merged getter of property `n`.
pub open spec fn merged_getter(bs: Seq<Seq<MemberV>>, n: Seq<char>) -> Option<MemberV> {
    let pr = present_named(bs, Slot::Getter, n);
    if pr.len() == 0 {
        None
    } else {
        Some(
            MemberV::Getter {
                js_name: n,
                ty: union_member_types_spec(prop_tys(pr)),
                optional: absent_somewhere(bs, Slot::Getter, n) || any_optional(pr),
                doc: first_doc(pr),
            },
        )
    }
}

/// The merged setter of property `n`; none where a branch makes the
/// property read-only.
pub open spec fn merged_setter(bs: Seq<Seq<MemberV>>, n: Seq<char>) -> Option<MemberV> {
    let pr = present_named(bs, Slot::Setter, n);
    if pr.len() == 0 || readonly_in(bs, n) {
        None
    } else {
        Some(
            MemberV::Setter {
                js_name: n,
                ty: union_member_types_spec(prop_tys(pr)),
                doc: first_doc(pr),
            },
        )
    }
}

pub open spec fn opt_seq(o: Option<MemberV>) -> Seq<MemberV> {
    match o {
        Some(m) => seq![m],
        None => seq![],
    }
}

/// Each property's merged getter followed by its merged setter.
pub open spec fn props_out(bs: Seq<Seq<MemberV>>, ns: Seq<Seq<char>>) -> Seq<MemberV>
    decreases ns.len(),
{
    if ns.len() == 0 {
        seq![]
    } else {
        props_out(bs, ns.drop_last()) + opt_seq(merged_getter(bs, ns.last())) + opt_seq(
            merged_setter(bs, ns.last()),
        )
    }
}

/// The merged setters of the properties that no branch has a getter for.
pub open spec fn setter_only_out(bs: Seq<Seq<MemberV>>, ns: Seq<Seq<char>>, getters: Seq<Seq<char>>) -> Seq<
    MemberV,
>
    decreases ns.len(),
{
    if ns.len() == 0 {
        seq![]
    } else {
        setter_only_out(bs, ns.drop_last(), getters) + if getters.contains(ns.last()) {
            seq![]
        } else {
            opt_seq(merged_setter(bs, ns.last()))
        }
    }
}

/// All members of kind `k`, grouped by name in the order of `ns`.
pub open spec fn grouped(f: Seq<MemberV>, k: Slot, ns: Seq<Seq<char>>) -> Seq<MemberV>
    decreases ns.len(),
{
    if ns.len() == 0 {
        seq![]
    } else {
        grouped(f, k, ns.drop_last()) + all_named(f, k, ns.last())
    }
}

/// The first member of kind `k` of each name of `ns`.
pub open spec fn firsts(f: Seq<MemberV>, k: Slot, ns: Seq<Seq<char>>) -> Seq<MemberV>
    decreases ns.len(),
{
    if ns.len() == 0 {
        seq![]
    } else {
        firsts(f, k, ns.drop_last()) + opt_seq(find_named(f, k, ns.last()))
    }
}

/// The first index signature.
pub open spec fn first_index_sig(f: Seq<MemberV>) -> Option<MemberV>
    decreases f.len(),
{
    if f.len() == 0 {
        None
    } else if f[0] is IndexSignature {
        Some(f[0])
    } else {
        first_index_sig(f.drop_first())
    }
}

/// The merged member list of the branches.
pub open spec fn merge_spec(bs: Seq<Seq<MemberV>>) -> Seq<MemberV> {
    if bs.len() == 0 {
        seq![]
    } else if bs.len() == 1 {
        bs[0]
    } else {
        let f = flat(bs);
        let gn = first_appearance(names_in(f, Slot::Getter));
        let sn = first_appearance(names_in(f, Slot::Setter));
        props_out(bs, gn) + setter_only_out(bs, sn, gn) + grouped(
            f,
            Slot::Method,
            first_appearance(names_in(f, Slot::Method)),
        ) + opt_seq(first_index_sig(f)) + firsts(
            f,
            Slot::StaticGetter,
            first_appearance(names_in(f, Slot::StaticGetter)),
        ) + firsts(f, Slot::StaticSetter, first_appearance(names_in(f, Slot::StaticSetter)))
            + grouped(f, Slot::StaticMethod, first_appearance(names_in(f, Slot::StaticMethod)))
    }
}

// ---------------------------------------------------------------------
// Executable helpers
// ---------------------------------------------------------------------

/// The name of `m` when it is a member of kind `k`.
fn member_name(m: &Member, k: Slot) -> (r: Option<&String>)
    ensures
        match r {
            Some(s) => named(m@, k) == Some(s@),
            None => named(m@, k) is None,
        },
{
    match (m, k) {
        (Member::Getter(g), Slot::Getter) => Some(&g.js_name),
        (Member::Setter(s), Slot::Setter) => Some(&s.js_name),
        (Member::Method(x), Slot::Method) => Some(&x.js_name),
        (Member::StaticGetter(g), Slot::StaticGetter) => Some(&g.js_name),
        (Member::StaticSetter(s), Slot::StaticSetter) => Some(&s.js_name),
        (Member::StaticMethod(x), Slot::StaticMethod) => Some(&x.js_name),
        _ => None,
    }
}

fn is_named(m: &Member, k: Slot, n: &String) -> (r: bool)
    ensures
        r == (named(m@, k) == Some(n@)),
{
    match member_name(m, k) {
        Some(s) => crate::text::str_eq(s.as_str(), n.as_str()),
        None => false,
    }
}

/// All members of all branches, in order.
fn flatten(branches: &[Vec<Member>]) -> (r: Vec<Member>)
    ensures
        members_view(r@) == flat(branches_view(branches@)),
{
    let ghost bv = branches_view(branches@);
    let mut out: Vec<Member> = Vec::new();
    let mut i: usize = 0;
    while i < branches.len()
        invariant
            i <= branches.len(),
            bv == branches_view(branches@),
            members_view(out@) == flat(bv.take(i as int)),
        decreases branches.len() - i,
    {
        assert(bv.take(i + 1).drop_last() =~= bv.take(i as int));
        assert(bv.take(i + 1).last() == members_view(branches@[i as int]@));
        let b = &branches[i];
        let ghost start = members_view(out@);
        let mut j: usize = 0;
        while j < b.len()
            invariant
                j <= b.len(),
                members_view(out@) == start + members_view(b@).take(j as int),
            decreases b.len() - j,
        {
            let m = b[j].clone();
            let ghost prev = out@;
            out.push(m);
            assert(members_view(out@) =~= members_view(prev).push(m@));
            assert(members_view(b@).take(j + 1) =~= members_view(b@).take(j as int).push(b@[j as int]@));
            j = j + 1;
        }
        assert(members_view(b@).take(b.len() as int) =~= members_view(b@));
        i = i + 1;
    }
    assert(bv.take(branches.len() as int) =~= bv);
    out
}

/// The names of the members of kind `k`, each once, in order of first
/// appearance (collected in an `IndexMap`).
fn collect_names(f: &Vec<Member>, k: Slot) -> (r: IndexMap<String, ()>)
    ensures
        index_map_keys(r) == first_appearance(names_in(members_view(f@), k)),
{
    let ghost fv = members_view(f@);
    let mut map = name_map_new();
    let mut i: usize = 0;
    while i < f.len()
        invariant
            i <= f.len(),
            fv == members_view(f@),
            index_map_keys(map) == first_appearance(names_in(fv.take(i as int), k)),
        decreases f.len() - i,
    {
        assert(fv.take(i + 1).drop_last() =~= fv.take(i as int));
        assert(fv.take(i + 1).last() == f@[i as int]@);
        let ghost ns = names_in(fv.take(i as int), k);
        match member_name(&f[i], k) {
            Some(n) => {
                assert(names_in(fv.take(i + 1), k) == ns.push(n@));
                assert(ns.push(n@).drop_last() =~= ns);
                name_map_insert(&mut map, n.clone());
            },
            None => {
                assert(names_in(fv.take(i + 1), k) == ns);
            },
        }
        i = i + 1;
    }
    assert(fv.take(f.len() as int) =~= fv);
    map
}

/// The index of the first member of kind `k` named `n`.
fn find_in(b: &Vec<Member>, k: Slot, n: &String) -> (r: Option<usize>)
    ensures
        match r {
            Some(j) => j < b.len() && find_named(members_view(b@), k, n@) == Some(b@[j as int]@),
            None => find_named(members_view(b@), k, n@) is None,
        },
{
    let ghost bv = members_view(b@);
    assert(bv.skip(0) =~= bv);
    let mut j: usize = 0;
    while j < b.len()
        invariant
            j <= b.len(),
            bv == members_view(b@),
            find_named(bv, k, n@) == find_named(bv.skip(j as int), k, n@),
        decreases b.len() - j,
    {
        assert(bv.skip(j as int)[0] == b@[j as int]@);
        if is_named(&b[j], k, n) {
            return Some(j);
        }
        assert(bv.skip(j as int).drop_first() =~= bv.skip(j + 1));
        j = j + 1;
    }
    None
}

/// Per-property branch types combined into one `TypeRef`.
fn union_member_types(types: Vec<TypeRef>) -> (r: TypeRef)
    ensures
        r@ == union_member_types_spec(tys_view(types@)),
{
    let ghost tv = tys_view(types@);
    proof {
        crate::ir::lemma_tys_view(types@);
    }
    let mut all: Vec<TypeRef> = Vec::new();
    let mut i: usize = 0;
    while i < types.len()
        invariant
            i <= types.len(),
            tv == tys_view(types@),
            tv.len() == types.len(),
            forall|j: int| 0 <= j < types.len() ==> #[trigger] tv[j] == types@[j]@,
            tys_view(all@) == dedup_runs(tv.take(i as int)),
        decreases types.len() - i,
    {
        assert(tv.take(i + 1).drop_last() =~= tv.take(i as int));
        proof {
            crate::ir::lemma_tys_view(all@);
        }
        let n = all.len();
        let same = n > 0 && ty_eq(&all[n - 1], &types[i]);
        if !same {
            let c = crate::ir::copy_ty(&types[i]);
            let ghost prev = all@;
            all.push(c);
            proof {
                crate::ir::lemma_tys_view(all@);
            }
            assert(tys_view(all@) =~= tys_view(prev).push(c@));
        }
        i = i + 1;
    }
    assert(tv.take(types.len() as int) =~= tv);
    proof {
        crate::ir::lemma_tys_view(all@);
    }
    if all.len() == 0 {
        TypeRef::Any
    } else if all.len() == 1 {
        all.pop().unwrap()
    } else {
        simplify_union(all)
    }
}

proof fn lemma_first_doc_push(ms: Seq<MemberV>, m: MemberV)
    ensures
        first_doc(ms.push(m)) == if first_doc(ms) is Some {
            first_doc(ms)
        } else {
            prop_doc(m)
        },
    decreases ms.len(),
{
    assert(ms.push(m)[0] == if ms.len() > 0 {
        ms[0]
    } else {
        m
    });
    if ms.len() > 0 {
        assert(ms.push(m).drop_first() =~= ms.drop_first().push(m));
        lemma_first_doc_push(ms.drop_first(), m);
    } else {
        assert(ms.push(m).drop_first() =~= Seq::<MemberV>::empty());
        assert(first_doc(Seq::<MemberV>::empty()) is None);
    }
}

proof fn lemma_find_named(ms: Seq<MemberV>, k: Slot, n: Seq<char>)
    ensures
        match find_named(ms, k, n) {
            Some(m) => named(m, k) == Some(n),
            None => true,
        },
    decreases ms.len(),
{
    if ms.len() > 0 && named(ms[0], k) != Some(n) {
        lemma_find_named(ms.drop_first(), k, n);
    }
}

pub open spec fn opt_member_view(o: Option<Member>) -> Option<MemberV> {
    match o {
        Some(m) => Some(m@),
        None => None,
    }
}

/// The merged getter of property `n`.
fn merged_getter_of(branches: &[Vec<Member>], n: &String) -> (r: Option<Member>)
    ensures
        opt_member_view(r) == merged_getter(branches_view(branches@), n@),
{
    let ghost bv = branches_view(branches@);
    let mut types: Vec<TypeRef> = Vec::new();
    let mut count: usize = 0;
    let mut absent = false;
    let mut optional = false;
    let mut doc: Option<String> = None;
    let ghost mut pr: Seq<MemberV> = seq![];
    let mut i: usize = 0;
    while i < branches.len()
        invariant
            i <= branches.len(),
            bv == branches_view(branches@),
            pr == present_named(bv.take(i as int), Slot::Getter, n@),
            tys_view(types@) == prop_tys(pr),
            count == pr.len(),
            count <= i,
            absent == absent_somewhere(bv.take(i as int), Slot::Getter, n@),
            optional == any_optional(pr),
            opt_str_view(doc) == first_doc(pr),
        decreases branches.len() - i,
    {
        assert(bv.take(i + 1).drop_last() =~= bv.take(i as int));
        assert(bv.take(i + 1).last() == members_view(branches@[i as int]@));
        match find_in(&branches[i], Slot::Getter, n) {
            Some(j) => {
                proof {
                    lemma_find_named(members_view(branches@[i as int]@), Slot::Getter, n@);
                }
                match &branches[i][j] {
                    Member::Getter(g) => {
                        let t = crate::ir::copy_ty(&g.type_ref);
                        let ghost prev = types@;
                        types.push(t);
                        proof {
                            crate::ir::lemma_tys_view(prev);
                            crate::ir::lemma_tys_view(types@);
                            lemma_first_doc_push(pr, g@);
                        }
                        assert(prop_tys(pr.push(g@)) =~= prop_tys(pr).push(t@));
                        assert(tys_view(types@) =~= tys_view(prev).push(t@));
                        if g.optional {
                            optional = true;
                        }
                        if doc.is_none() {
                            doc = copy_opt_string(&g.doc);
                        }
                        assert(pr.push(g@).drop_last() =~= pr);
                        proof {
                            pr = pr.push(g@);
                        }
                        count = count + 1;
                    },
                    _ => {
                        assert(false);
                    },
                }
            },
            None => {
                absent = true;
            },
        }
        i = i + 1;
    }
    assert(bv.take(branches.len() as int) =~= bv);
    if count == 0 {
        None
    } else {
        let type_ref = union_member_types(types);
        Some(
            Member::Getter(
                GetterMember { js_name: n.clone(), type_ref, optional: absent || optional, doc },
            ),
        )
    }
}

/// The merged setter of property `n`.
fn merged_setter_of(branches: &[Vec<Member>], n: &String) -> (r: Option<Member>)
    ensures
        opt_member_view(r) == merged_setter(branches_view(branches@), n@),
{
    let ghost bv = branches_view(branches@);
    let mut types: Vec<TypeRef> = Vec::new();
    let mut count: usize = 0;
    let mut readonly = false;
    let mut doc: Option<String> = None;
    let ghost mut pr: Seq<MemberV> = seq![];
    let mut i: usize = 0;
    while i < branches.len()
        invariant
            i <= branches.len(),
            bv == branches_view(branches@),
            pr == present_named(bv.take(i as int), Slot::Setter, n@),
            tys_view(types@) == prop_tys(pr),
            count == pr.len(),
            count <= i,
            readonly == readonly_in(bv.take(i as int), n@),
            opt_str_view(doc) == first_doc(pr),
        decreases branches.len() - i,
    {
        assert(bv.take(i + 1).drop_last() =~= bv.take(i as int));
        assert(bv.take(i + 1).last() == members_view(branches@[i as int]@));
        let getter = find_in(&branches[i], Slot::Getter, n);
        match find_in(&branches[i], Slot::Setter, n) {
            Some(j) => {
                proof {
                    lemma_find_named(members_view(branches@[i as int]@), Slot::Setter, n@);
                }
                match &branches[i][j] {
                    Member::Setter(s) => {
                        let t = crate::ir::copy_ty(&s.type_ref);
                        let ghost prev = types@;
                        types.push(t);
                        proof {
                            crate::ir::lemma_tys_view(prev);
                            crate::ir::lemma_tys_view(types@);
                            lemma_first_doc_push(pr, s@);
                        }
                        assert(prop_tys(pr.push(s@)) =~= prop_tys(pr).push(t@));
                        assert(tys_view(types@) =~= tys_view(prev).push(t@));
                        if doc.is_none() {
                            doc = copy_opt_string(&s.doc);
                        }
                        assert(pr.push(s@).drop_last() =~= pr);
                        proof {
                            pr = pr.push(s@);
                        }
                        count = count + 1;
                    },
                    _ => {
                        assert(false);
                    },
                }
            },
            None => {
                if getter.is_some() {
                    readonly = true;
                }
            },
        }
        i = i + 1;
    }
    assert(bv.take(branches.len() as int) =~= bv);
    if count == 0 || readonly {
        None
    } else {
        let type_ref = union_member_types(types);
        Some(Member::Setter(SetterMember { js_name: n.clone(), type_ref, doc }))
    }
}

/// Append every member of kind `k` named `n` of `f`, in order.
fn push_all_named(f: &Vec<Member>, k: Slot, n: &String, out: &mut Vec<Member>)
    ensures
        members_view(final(out)@) == members_view(old(out)@) + all_named(members_view(f@), k, n@),
{
    let ghost fv = members_view(f@);
    let ghost start = members_view(out@);
    let mut i: usize = 0;
    while i < f.len()
        invariant
            i <= f.len(),
            fv == members_view(f@),
            members_view(out@) == start + all_named(fv.take(i as int), k, n@),
        decreases f.len() - i,
    {
        assert(fv.take(i + 1).drop_last() =~= fv.take(i as int));
        assert(fv.take(i + 1).last() == f@[i as int]@);
        if is_named(&f[i], k, n) {
            let m = f[i].clone();
            let ghost prev = out@;
            out.push(m);
            assert(members_view(out@) =~= members_view(prev).push(m@));
        }
        i = i + 1;
    }
    assert(fv.take(f.len() as int) =~= fv);
}

/// Append `o` if it holds a member.
fn push_opt(out: &mut Vec<Member>, o: Option<Member>)
    ensures
        members_view(final(out)@) == members_view(old(out)@) + opt_seq(opt_member_view(o)),
{
    let ghost prev = out@;
    match o {
        Some(m) => {
            out.push(m);
            assert(members_view(out@) =~= members_view(prev) + seq![m@]);
        },
        None => {
            assert(members_view(out@) =~= members_view(prev) + Seq::<MemberV>::empty());
        },
    }
}

/// The first member of kind `k` named `n`, copied.
fn first_named(f: &Vec<Member>, k: Slot, n: &String) -> (r: Option<Member>)
    ensures
        opt_member_view(r) == find_named(members_view(f@), k, n@),
{
    match find_in(f, k, n) {
        Some(j) => Some(f[j].clone()),
        None => None,
    }
}

/// The first index signature, copied.
fn first_index_signature(f: &Vec<Member>) -> (r: Option<Member>)
    ensures
        opt_member_view(r) == first_index_sig(members_view(f@)),
{
    let ghost fv = members_view(f@);
    assert(fv.skip(0) =~= fv);
    let mut j: usize = 0;
    while j < f.len()
        invariant
            j <= f.len(),
            fv == members_view(f@),
            first_index_sig(fv) == first_index_sig(fv.skip(j as int)),
        decreases f.len() - j,
    {
        assert(fv.skip(j as int)[0] == f@[j as int]@);
        if let Member::IndexSignature(_) = &f[j] {
            return Some(f[j].clone());
        }
        assert(fv.skip(j as int).drop_first() =~= fv.skip(j + 1));
        j = j + 1;
    }
    None
}

pub open spec fn names_view(v: Seq<String>) -> Seq<Seq<char>> {
    v.map_values(|s: String| s@)
}

/// Append each property's merged getter and setter.
fn push_props(branches: &[Vec<Member>], names: &Vec<String>, out: &mut Vec<Member>)
    ensures
        members_view(final(out)@) == members_view(old(out)@) + props_out(
            branches_view(branches@),
            names_view(names@),
        ),
{
    let ghost bv = branches_view(branches@);
    let ghost nv = names_view(names@);
    let ghost start = members_view(out@);
    let mut i: usize = 0;
    while i < names.len()
        invariant
            i <= names.len(),
            bv == branches_view(branches@),
            nv == names_view(names@),
            members_view(out@) == start + props_out(bv, nv.take(i as int)),
        decreases names.len() - i,
    {
        assert(nv.take(i + 1).drop_last() =~= nv.take(i as int));
        assert(nv.take(i + 1).last() == names@[i as int]@);
        let g = merged_getter_of(branches, &names[i]);
        push_opt(out, g);
        let s = merged_setter_of(branches, &names[i]);
        push_opt(out, s);
        i = i + 1;
    }
    assert(nv.take(names.len() as int) =~= nv);
}

/// Append the merged setters of the properties without a getter.
fn push_setter_only(
    branches: &[Vec<Member>],
    names: &Vec<String>,
    getters: &IndexMap<String, ()>,
    out: &mut Vec<Member>,
)
    ensures
        members_view(final(out)@) == members_view(old(out)@) + setter_only_out(
            branches_view(branches@),
            names_view(names@),
            index_map_keys(*getters),
        ),
{
    let ghost bv = branches_view(branches@);
    let ghost nv = names_view(names@);
    let ghost start = members_view(out@);
    let mut i: usize = 0;
    while i < names.len()
        invariant
            i <= names.len(),
            bv == branches_view(branches@),
            nv == names_view(names@),
            members_view(out@) == start + setter_only_out(
                bv,
                nv.take(i as int),
                index_map_keys(*getters),
            ),
        decreases names.len() - i,
    {
        assert(nv.take(i + 1).drop_last() =~= nv.take(i as int));
        assert(nv.take(i + 1).last() == names@[i as int]@);
        if !name_map_contains(getters, names[i].as_str()) {
            let s = merged_setter_of(branches, &names[i]);
            push_opt(out, s);
        } else {
            assert(members_view(out@) =~= members_view(out@) + Seq::<MemberV>::empty());
        }
        i = i + 1;
    }
    assert(nv.take(names.len() as int) =~= nv);
}

/// Append the members of kind `k` of `f`, grouped by name.
fn push_grouped(f: &Vec<Member>, k: Slot, names: &Vec<String>, out: &mut Vec<Member>)
    ensures
        members_view(final(out)@) == members_view(old(out)@) + grouped(
            members_view(f@),
            k,
            names_view(names@),
        ),
{
    let ghost nv = names_view(names@);
    let ghost start = members_view(out@);
    let mut i: usize = 0;
    while i < names.len()
        invariant
            i <= names.len(),
            nv == names_view(names@),
            members_view(out@) == start + grouped(members_view(f@), k, nv.take(i as int)),
        decreases names.len() - i,
    {
        assert(nv.take(i + 1).drop_last() =~= nv.take(i as int));
        assert(nv.take(i + 1).last() == names@[i as int]@);
        push_all_named(f, k, &names[i], out);
        i = i + 1;
    }
    assert(nv.take(names.len() as int) =~= nv);
}

/// Append the first member of kind `k` of each name.
fn push_firsts(f: &Vec<Member>, k: Slot, names: &Vec<String>, out: &mut Vec<Member>)
    ensures
        members_view(final(out)@) == members_view(old(out)@) + firsts(
            members_view(f@),
            k,
            names_view(names@),
        ),
{
    let ghost nv = names_view(names@);
    let ghost start = members_view(out@);
    let mut i: usize = 0;
    while i < names.len()
        invariant
            i <= names.len(),
            nv == names_view(names@),
            members_view(out@) == start + firsts(members_view(f@), k, nv.take(i as int)),
        decreases names.len() - i,
    {
        assert(nv.take(i + 1).drop_last() =~= nv.take(i as int));
        assert(nv.take(i + 1).last() == names@[i as int]@);
        let m = first_named(f, k, &names[i]);
        push_opt(out, m);
        i = i + 1;
    }
    assert(nv.take(names.len() as int) =~= nv);
}

/// Merge a list of type-literal branches into a single member set: see
/// the module documentation for the rules.
pub fn merge_member_branches(branches: &[Vec<Member>]) -> (r: Vec<Member>)
    ensures
        members_view(r@) == merge_spec(branches_view(branches@)),
{
    let ghost bv = branches_view(branches@);
    if branches.len() == 0 {
        let r: Vec<Member> = Vec::new();
        assert(members_view(r@) =~= Seq::<MemberV>::empty());
        return r;
    }
    if branches.len() == 1 {
        let b = &branches[0];
        let mut r: Vec<Member> = Vec::new();
        let mut j: usize = 0;
        while j < b.len()
            invariant
                j <= b.len(),
                members_view(r@) == members_view(b@).take(j as int),
            decreases b.len() - j,
        {
            let m = b[j].clone();
            let ghost prev = r@;
            r.push(m);
            assert(members_view(r@) =~= members_view(prev).push(m@));
            assert(members_view(b@).take(j + 1) =~= members_view(b@).take(j as int).push(b@[j as int]@));
            j = j + 1;
        }
        assert(members_view(b@).take(b.len() as int) =~= members_view(b@));
        assert(bv[0] == members_view(b@));
        return r;
    }
    let f = flatten(branches);
    let getters = collect_names(&f, Slot::Getter);
    let setters = collect_names(&f, Slot::Setter);
    let methods = collect_names(&f, Slot::Method);
    let static_getters = collect_names(&f, Slot::StaticGetter);
    let static_setters = collect_names(&f, Slot::StaticSetter);
    let static_methods = collect_names(&f, Slot::StaticMethod);

    let mut out: Vec<Member> = Vec::new();
    assert(members_view(out@) =~= Seq::<MemberV>::empty());
    let getter_names = name_map_keys(&getters);
    push_props(branches, &getter_names, &mut out);
    let setter_names = name_map_keys(&setters);
    push_setter_only(branches, &setter_names, &getters, &mut out);
    let method_names = name_map_keys(&methods);
    push_grouped(&f, Slot::Method, &method_names, &mut out);
    let idx = first_index_signature(&f);
    push_opt(&mut out, idx);
    let sg_names = name_map_keys(&static_getters);
    push_firsts(&f, Slot::StaticGetter, &sg_names, &mut out);
    let ss_names = name_map_keys(&static_setters);
    push_firsts(&f, Slot::StaticSetter, &ss_names, &mut out);
    let sm_names = name_map_keys(&static_methods);
    push_grouped(&f, Slot::StaticMethod, &sm_names, &mut out);
    assert(members_view(out@) =~= merge_spec(bv));
    out
}

/// A string, number or boolean literal type.
pub open spec fn is_literal_ty(t: TyV) -> bool {
    t is StringLiteral || t is NumberLiteral || t is BooleanLiteral
}

/// Property `n` is a required, literal-typed getter in every branch.
pub open spec fn discriminates(bs: Seq<Seq<MemberV>>, n: Seq<char>) -> bool
    decreases bs.len(),
{
    bs.len() == 0 || (discriminates(bs.drop_last(), n) && match find_named(
        bs.last(),
        Slot::Getter,
        n,
    ) {
        Some(g) => !prop_optional(g) && is_literal_ty(prop_ty(g)),
        None => false,
    })
}

/// The names of `ns` that discriminate the branches, in order.
pub open spec fn keep_discriminators(bs: Seq<Seq<MemberV>>, ns: Seq<Seq<char>>) -> Seq<Seq<char>>
    decreases ns.len(),
{
    if ns.len() == 0 {
        seq![]
    } else {
        let rest = keep_discriminators(bs, ns.drop_last());
        if discriminates(bs, ns.last()) {
            rest.push(ns.last())
        } else {
            rest
        }
    }
}

/// The discriminator properties of a union of at least two branches, in
/// order of first appearance.
pub open spec fn discriminators_spec(bs: Seq<Seq<MemberV>>) -> Seq<Seq<char>> {
    if bs.len() < 2 {
        seq![]
    } else {
        keep_discriminators(bs, first_appearance(names_in(flat(bs), Slot::Getter)))
    }
}

fn discriminates_exec(branches: &[Vec<Member>], n: &String) -> (r: bool)
    ensures
        r == discriminates(branches_view(branches@), n@),
{
    let ghost bv = branches_view(branches@);
    let mut ok = true;
    let mut i: usize = 0;
    while i < branches.len()
        invariant
            i <= branches.len(),
            bv == branches_view(branches@),
            ok == discriminates(bv.take(i as int), n@),
        decreases branches.len() - i,
    {
        assert(bv.take(i + 1).drop_last() =~= bv.take(i as int));
        assert(bv.take(i + 1).last() == members_view(branches@[i as int]@));
        match find_in(&branches[i], Slot::Getter, n) {
            Some(j) => {
                proof {
                    lemma_find_named(members_view(branches@[i as int]@), Slot::Getter, n@);
                }
                match &branches[i][j] {
                    Member::Getter(g) => {
                        let lit = match &g.type_ref {
                            TypeRef::StringLiteral(_) => true,
                            TypeRef::NumberLiteral(_) => true,
                            TypeRef::BooleanLiteral(_) => true,
                            _ => false,
                        };
                        ok = ok && !g.optional && lit;
                    },
                    _ => {
                        assert(false);
                    },
                }
            },
            None => {
                ok = false;
            },
        }
        i = i + 1;
    }
    assert(bv.take(branches.len() as int) =~= bv);
    ok
}

/// Identify discriminator properties across a set of branches: those
/// that are a required getter of a string, number or boolean literal
/// type in every branch.
pub fn detect_discriminators(branches: &[Vec<Member>]) -> (r: Vec<String>)
    ensures
        names_view(r@) == discriminators_spec(branches_view(branches@)),
{
    let ghost bv = branches_view(branches@);
    if branches.len() < 2 {
        let r: Vec<String> = Vec::new();
        assert(names_view(r@) =~= Seq::<Seq<char>>::empty());
        return r;
    }
    let f = flatten(branches);
    let per_branch = collect_names(&f, Slot::Getter);
    let order = name_map_keys(&per_branch);
    let ghost ov = names_view(order@);
    let mut out: Vec<String> = Vec::new();
    let mut i: usize = 0;
    while i < order.len()
        invariant
            i <= order.len(),
            bv == branches_view(branches@),
            ov == names_view(order@),
            names_view(out@) == keep_discriminators(bv, ov.take(i as int)),
        decreases order.len() - i,
    {
        assert(ov.take(i + 1).drop_last() =~= ov.take(i as int));
        assert(ov.take(i + 1).last() == order@[i as int]@);
        if discriminates_exec(branches, &order[i]) {
            let name = order[i].clone();
            let ghost prev = out@;
            out.push(name);
            assert(names_view(out@) =~= names_view(prev).push(name@));
        }
        i = i + 1;
    }
    assert(ov.take(order.len() as int) =~= ov);
    out
}

// ---------------------------------------------------------------------
// Laws
// ---------------------------------------------------------------------

/// A getter is there and optional.
pub open spec fn optional_in(o: Option<MemberV>) -> bool {
    match o {
        Some(g) => prop_optional(g),
        None => false,
    }
}

proof fn lemma_absent_somewhere(bs: Seq<Seq<MemberV>>, k: Slot, n: Seq<char>)
    ensures
        absent_somewhere(bs, k, n) <==> exists|i: int|
            0 <= i < bs.len() && #[trigger] find_named(bs[i], k, n) is None,
    decreases bs.len(),
{
    if bs.len() > 0 {
        lemma_absent_somewhere(bs.drop_last(), k, n);
        if absent_somewhere(bs.drop_last(), k, n) {
            let i = choose|i: int|
                0 <= i < bs.drop_last().len() && #[trigger] find_named(bs.drop_last()[i], k, n) is None;
            assert(bs[i] == bs.drop_last()[i]);
        }
        if exists|i: int| 0 <= i < bs.len() && #[trigger] find_named(bs[i], k, n) is None {
            let i = choose|i: int| 0 <= i < bs.len() && #[trigger] find_named(bs[i], k, n) is None;
            if i < bs.len() - 1 {
                assert(bs.drop_last()[i] == bs[i]);
            }
        }
    }
}

proof fn lemma_present_optional(bs: Seq<Seq<MemberV>>, n: Seq<char>)
    ensures
        any_optional(present_named(bs, Slot::Getter, n)) <==> exists|i: int|
            0 <= i < bs.len() && #[trigger] optional_in(find_named(bs[i], Slot::Getter, n)),
        present_named(bs, Slot::Getter, n).len() == 0 <==> forall|i: int|
            0 <= i < bs.len() ==> #[trigger] find_named(bs[i], Slot::Getter, n) is None,
    decreases bs.len(),
{
    if bs.len() > 0 {
        let p = bs.drop_last();
        lemma_present_optional(p, n);
        let rest = present_named(p, Slot::Getter, n);
        assert(bs[bs.len() - 1] == bs.last());
        assert(optional_in(find_named(bs[bs.len() - 1], Slot::Getter, n)) == optional_in(
            find_named(bs.last(), Slot::Getter, n),
        ));
        match find_named(bs.last(), Slot::Getter, n) {
            Some(m) => {
                assert(rest.push(m).drop_last() =~= rest);
                assert(present_named(bs, Slot::Getter, n) == rest.push(m));
                assert(any_optional(rest.push(m)) == (prop_optional(m) || any_optional(rest)));
            },
            None => {
                assert(present_named(bs, Slot::Getter, n) == rest);
            },
        }
        if exists|i: int|
            0 <= i < p.len() && #[trigger] optional_in(find_named(p[i], Slot::Getter, n)) {
            let i = choose|i: int|
                0 <= i < p.len() && #[trigger] optional_in(find_named(p[i], Slot::Getter, n));
            assert(bs[i] == p[i]);
        }
        if exists|i: int|
            0 <= i < bs.len() && #[trigger] optional_in(find_named(bs[i], Slot::Getter, n)) {
            let i = choose|i: int|
                0 <= i < bs.len() && #[trigger] optional_in(find_named(bs[i], Slot::Getter, n));
            if i < bs.len() - 1 {
                assert(p[i] == bs[i]);
            }
        }
        if forall|i: int| 0 <= i < bs.len() ==> #[trigger] find_named(bs[i], Slot::Getter, n) is None {
            assert forall|i: int| 0 <= i < p.len() implies #[trigger] find_named(p[i], Slot::Getter, n) is None by {
                assert(p[i] == bs[i]);
            }
            assert(find_named(bs[bs.len() - 1], Slot::Getter, n) is None);
        }
        if present_named(bs, Slot::Getter, n).len() == 0 {
            assert forall|i: int| 0 <= i < bs.len() implies #[trigger] find_named(bs[i], Slot::Getter, n) is None by {
                if i < bs.len() - 1 {
                    assert(p[i] == bs[i]);
                }
            }
        }
    }
}

/// A getter is missing or optional.
pub open spec fn missing_or_optional(o: Option<MemberV>) -> bool {
    match o {
        Some(g) => prop_optional(g),
        None => true,
    }
}

/// A merged property is optional iff some branch lacks it or declares it
/// optional; otherwise it is required.
pub proof fn law_merged_optionality(bs: Seq<Seq<MemberV>>, n: Seq<char>)
    requires
        merged_getter(bs, n) is Some,
    ensures
        merged_getter(bs, n) matches Some(MemberV::Getter { optional, .. }) && (optional
            <==> exists|i: int|
            0 <= i < bs.len() && #[trigger] missing_or_optional(find_named(bs[i], Slot::Getter, n))),
{
    lemma_absent_somewhere(bs, Slot::Getter, n);
    lemma_present_optional(bs, n);
    if exists|i: int|
        0 <= i < bs.len() && #[trigger] missing_or_optional(find_named(bs[i], Slot::Getter, n)) {
        let i = choose|i: int|
            0 <= i < bs.len() && #[trigger] missing_or_optional(find_named(bs[i], Slot::Getter, n));
        if find_named(bs[i], Slot::Getter, n) is Some {
            assert(optional_in(find_named(bs[i], Slot::Getter, n)));
        }
    }
    if absent_somewhere(bs, Slot::Getter, n) {
        let i = choose|i: int| 0 <= i < bs.len() && #[trigger] find_named(bs[i], Slot::Getter, n) is None;
        assert(missing_or_optional(find_named(bs[i], Slot::Getter, n)));
    }
    if any_optional(present_named(bs, Slot::Getter, n)) {
        let i = choose|i: int|
            0 <= i < bs.len() && #[trigger] optional_in(find_named(bs[i], Slot::Getter, n));
        assert(missing_or_optional(find_named(bs[i], Slot::Getter, n)));
    }
}

proof fn lemma_readonly_in(bs: Seq<Seq<MemberV>>, n: Seq<char>)
    ensures
        readonly_in(bs, n) <==> exists|i: int|
            0 <= i < bs.len() && #[trigger] find_named(bs[i], Slot::Getter, n) is Some
                && find_named(bs[i], Slot::Setter, n) is None,
    decreases bs.len(),
{
    if bs.len() > 0 {
        let p = bs.drop_last();
        lemma_readonly_in(p, n);
        if readonly_in(p, n) {
            let i = choose|i: int|
                0 <= i < p.len() && #[trigger] find_named(p[i], Slot::Getter, n) is Some
                    && find_named(p[i], Slot::Setter, n) is None;
            assert(bs[i] == p[i]);
        }
        if exists|i: int|
            0 <= i < bs.len() && #[trigger] find_named(bs[i], Slot::Getter, n) is Some
                && find_named(bs[i], Slot::Setter, n) is None {
            let i = choose|i: int|
                0 <= i < bs.len() && #[trigger] find_named(bs[i], Slot::Getter, n) is Some
                    && find_named(bs[i], Slot::Setter, n) is None;
            if i < bs.len() - 1 {
                assert(p[i] == bs[i]);
            }
        }
    }
}

/// A merged property gets a setter only when some branch has one and no
/// branch that has the getter lacks the setter (a read-only branch makes
/// the merged property read-only).
pub proof fn law_merged_writability(bs: Seq<Seq<MemberV>>, n: Seq<char>)
    ensures
        merged_setter(bs, n) is Some <==> (present_named(bs, Slot::Setter, n).len() > 0
            && forall|i: int|
            0 <= i < bs.len() && #[trigger] find_named(bs[i], Slot::Getter, n) is Some
                ==> find_named(bs[i], Slot::Setter, n) is Some),
{
    lemma_readonly_in(bs, n);
}

proof fn lemma_discriminates(bs: Seq<Seq<MemberV>>, n: Seq<char>)
    ensures
        discriminates(bs, n) <==> forall|i: int|
            0 <= i < bs.len() ==> match #[trigger] find_named(bs[i], Slot::Getter, n) {
                Some(g) => !prop_optional(g) && is_literal_ty(prop_ty(g)),
                None => false,
            },
    decreases bs.len(),
{
    if bs.len() > 0 {
        let p = bs.drop_last();
        lemma_discriminates(p, n);
        if discriminates(bs, n) {
            assert forall|i: int| 0 <= i < bs.len() implies match #[trigger] find_named(
                bs[i],
                Slot::Getter,
                n,
            ) {
                Some(g) => !prop_optional(g) && is_literal_ty(prop_ty(g)),
                None => false,
            } by {
                if i < bs.len() - 1 {
                    assert(p[i] == bs[i]);
                }
            }
        }
        if forall|i: int|
            0 <= i < bs.len() ==> match #[trigger] find_named(bs[i], Slot::Getter, n) {
                Some(g) => !prop_optional(g) && is_literal_ty(prop_ty(g)),
                None => false,
            } {
            assert forall|i: int| 0 <= i < p.len() implies match #[trigger] find_named(
                p[i],
                Slot::Getter,
                n,
            ) {
                Some(g) => !prop_optional(g) && is_literal_ty(prop_ty(g)),
                None => false,
            } by {
                assert(p[i] == bs[i]);
            }
            assert(find_named(bs[bs.len() - 1], Slot::Getter, n) == find_named(bs.last(), Slot::Getter, n));
        }
    }
}

proof fn lemma_keep_discriminators(bs: Seq<Seq<MemberV>>, ns: Seq<Seq<char>>)
    ensures
        forall|j: int|
            0 <= j < keep_discriminators(bs, ns).len() ==> discriminates(
                bs,
                #[trigger] keep_discriminators(bs, ns)[j],
            ),
    decreases ns.len(),
{
    if ns.len() > 0 {
        lemma_keep_discriminators(bs, ns.drop_last());
        let rest = keep_discriminators(bs, ns.drop_last());
        if discriminates(bs, ns.last()) {
            assert forall|j: int| 0 <= j < rest.len() + 1 implies discriminates(
                bs,
                #[trigger] rest.push(ns.last())[j],
            ) by {
                if j < rest.len() {
                    assert(rest.push(ns.last())[j] == rest[j]);
                }
            }
        }
    }
}

/// Every detected discriminator is, in every branch, a required getter
/// whose type is a string, number or boolean literal.
pub proof fn law_discriminators_hold(bs: Seq<Seq<MemberV>>, j: int)
    requires
        0 <= j < discriminators_spec(bs).len(),
    ensures
        forall|i: int|
            0 <= i < bs.len() ==> match #[trigger] find_named(
                bs[i],
                Slot::Getter,
                discriminators_spec(bs)[j],
            ) {
                Some(g) => !prop_optional(g) && is_literal_ty(prop_ty(g)),
                None => false,
            },
{
    lemma_keep_discriminators(bs, first_appearance(names_in(flat(bs), Slot::Getter)));
    lemma_discriminates(bs, discriminators_spec(bs)[j]);
}


proof fn lemma_names_in_has(ms: Seq<MemberV>, n: Seq<char>, k: int)
    requires
        0 <= k < ms.len(),
        named(ms[k], Slot::Getter) == Some(n),
    ensures
        names_in(ms, Slot::Getter).contains(n),
    decreases ms.len(),
{
    if k < ms.len() - 1 {
        assert(ms.drop_last()[k] == ms[k]);
        lemma_names_in_has(ms.drop_last(), n, k);
        let rest = names_in(ms.drop_last(), Slot::Getter);
        let j = choose|j: int| 0 <= j < rest.len() && rest[j] == n;
        match named(ms.last(), Slot::Getter) {
            Some(x) => {
                assert(rest.push(x)[j] == n);
            },
            None => {},
        }
    } else {
        let rest = names_in(ms.drop_last(), Slot::Getter);
        assert(rest.push(n)[rest.len() as int] == n);
    }
}

proof fn lemma_flat_has(bs: Seq<Seq<MemberV>>, i: int, k: int)
    requires
        0 <= i < bs.len(),
        0 <= k < bs[i].len(),
    ensures
        exists|p: int| 0 <= p < flat(bs).len() && flat(bs)[p] == bs[i][k],
    decreases bs.len(),
{
    let f0 = flat(bs.drop_last());
    if i < bs.len() - 1 {
        assert(bs.drop_last()[i] == bs[i]);
        lemma_flat_has(bs.drop_last(), i, k);
        let p = choose|p: int| 0 <= p < f0.len() && f0[p] == bs[i][k];
        assert(flat(bs)[p] == f0[p]);
    } else {
        assert(flat(bs)[f0.len() + k] == bs.last()[k]);
    }
}

proof fn lemma_first_appearance_has(ns: Seq<Seq<char>>, x: Seq<char>)
    requires
        ns.contains(x),
    ensures
        first_appearance(ns).contains(x),
    decreases ns.len(),
{
    let a = first_appearance(ns.drop_last());
    if ns.last() == x {
        if !a.contains(x) {
            assert(a.push(x)[a.len() as int] == x);
        }
    } else {
        let j = choose|j: int| 0 <= j < ns.len() && ns[j] == x;
        assert(ns.drop_last()[j] == x);
        lemma_first_appearance_has(ns.drop_last(), x);
        if !a.contains(ns.last()) {
            let q = choose|q: int| 0 <= q < a.len() && a[q] == x;
            assert(a.push(ns.last())[q] == x);
        }
    }
}

proof fn lemma_keep_has(bs: Seq<Seq<MemberV>>, ns: Seq<Seq<char>>, x: Seq<char>)
    requires
        ns.contains(x),
        discriminates(bs, x),
    ensures
        keep_discriminators(bs, ns).contains(x),
    decreases ns.len(),
{
    let rest = keep_discriminators(bs, ns.drop_last());
    if ns.last() == x {
        assert(rest.push(x)[rest.len() as int] == x);
    } else {
        let j = choose|j: int| 0 <= j < ns.len() && ns[j] == x;
        assert(ns.drop_last()[j] == x);
        lemma_keep_has(bs, ns.drop_last(), x);
        if discriminates(bs, ns.last()) {
            let q = choose|q: int| 0 <= q < rest.len() && rest[q] == x;
            assert(rest.push(ns.last())[q] == x);
        }
    }
}

proof fn lemma_find_named_at(ms: Seq<MemberV>, n: Seq<char>, k: int)
    requires
        0 <= k < ms.len(),
        named(ms[k], Slot::Getter) == Some(n),
        forall|j: int| 0 <= j < k ==> named(#[trigger] ms[j], Slot::Getter) != Some(n),
    ensures
        find_named(ms, Slot::Getter, n) == Some(ms[k]),
    decreases k,
{
    if k > 0 {
        assert(named(ms[0], Slot::Getter) != Some(n));
        assert forall|j: int| 0 <= j < k - 1 implies named(
            #[trigger] ms.drop_first()[j],
            Slot::Getter,
        ) != Some(n) by {
            assert(ms.drop_first()[j] == ms[j + 1]);
        }
        lemma_find_named_at(ms.drop_first(), n, k - 1);
    }
}

/// Every property whose first getter, in each of at least two branches,
/// is required and typed by a string, number or boolean literal is
/// detected as a discriminator: none is left out.
pub proof fn law_discriminators_complete(bs: Seq<Seq<MemberV>>, n: Seq<char>)
    requires
        bs.len() >= 2,
        forall|i: int| 0 <= i < bs.len() ==> first_getter_required_literal(#[trigger] bs[i], n),
    ensures
        discriminators_spec(bs).contains(n),
{
    assert forall|i: int| 0 <= i < bs.len() implies match #[trigger] find_named(
        bs[i],
        Slot::Getter,
        n,
    ) {
        Some(g) => !prop_optional(g) && is_literal_ty(prop_ty(g)),
        None => false,
    } by {
        let ms = bs[i];
        assert(first_getter_required_literal(ms, n));
        let k = choose|k: int|
            0 <= k < ms.len() && (#[trigger] ms[k] matches MemberV::Getter {
                js_name,
                ty,
                optional,
                ..
            } && js_name == n && !optional && (ty is StringLiteral || ty is NumberLiteral
                || ty is BooleanLiteral)) && forall|k2: int|
                0 <= k2 < k ==> !(#[trigger] ms[k2] matches MemberV::Getter { js_name, .. }
                    && js_name == n);
        assert forall|j: int| 0 <= j < k implies named(#[trigger] ms[j], Slot::Getter) != Some(n) by {
            assert(!(ms[j] matches MemberV::Getter { js_name, .. } && js_name == n));
        }
        lemma_find_named_at(ms, n, k);
    }
    lemma_discriminates(bs, n);
    let ms0 = bs[0];
    assert(first_getter_required_literal(ms0, n));
    let k = choose|k: int|
        0 <= k < ms0.len() && (#[trigger] ms0[k] matches MemberV::Getter {
            js_name,
            ty,
            optional,
            ..
        } && js_name == n && !optional && (ty is StringLiteral || ty is NumberLiteral
            || ty is BooleanLiteral)) && forall|k2: int|
            0 <= k2 < k ==> !(#[trigger] ms0[k2] matches MemberV::Getter { js_name, .. }
                && js_name == n);
    lemma_flat_has(bs, 0, k);
    let f = flat(bs);
    let p = choose|p: int| 0 <= p < f.len() && f[p] == bs[0][k];
    lemma_names_in_has(f, n, p);
    lemma_first_appearance_has(names_in(f, Slot::Getter), n);
    lemma_keep_has(bs, first_appearance(names_in(f, Slot::Getter)), n);
}


/// Each entry of `x` occurs in `ns` before any occurrence of every later
/// entry of `x`.
pub open spec fn ordered_by_first_occurrence(x: Seq<Seq<char>>, ns: Seq<Seq<char>>) -> bool {
    forall|j1: int, j2: int|
        0 <= j1 < j2 < x.len() ==> #[trigger] occurs_before(ns, x[j1], x[j2])
}

/// `a` occurs in `ns` before any occurrence of `b`.
pub open spec fn occurs_before(ns: Seq<Seq<char>>, a: Seq<char>, b: Seq<char>) -> bool {
    exists|p: int|
        0 <= p < ns.len() && ns[p] == a && forall|q: int| 0 <= q <= p ==> #[trigger] ns[q] != b
}

proof fn lemma_first_appearance_from(ns: Seq<Seq<char>>)
    ensures
        forall|j: int|
            0 <= j < first_appearance(ns).len() ==> ns.contains(#[trigger] first_appearance(ns)[j]),
    decreases ns.len(),
{
    if ns.len() > 0 {
        let p = ns.drop_last();
        lemma_first_appearance_from(p);
        let a = first_appearance(p);
        assert forall|j: int| 0 <= j < first_appearance(ns).len() implies ns.contains(
            #[trigger] first_appearance(ns)[j],
        ) by {
            if j < a.len() {
                assert(first_appearance(ns)[j] == a[j]);
                let k = choose|k: int| 0 <= k < p.len() && p[k] == a[j];
                assert(ns[k] == p[k]);
            } else {
                assert(first_appearance(ns)[j] == ns[ns.len() - 1]);
            }
        }
    }
}

proof fn lemma_first_appearance_ordered(ns: Seq<Seq<char>>)
    ensures
        ordered_by_first_occurrence(first_appearance(ns), ns),
    decreases ns.len(),
{
    if ns.len() > 0 {
        let p = ns.drop_last();
        let a = first_appearance(p);
        let x = first_appearance(ns);
        lemma_first_appearance_ordered(p);
        lemma_first_appearance_from(p);
        assert forall|j1: int, j2: int|
            0 <= j1 < j2 < x.len() implies #[trigger] occurs_before(ns, x[j1], x[j2]) by {
            assert(x[j1] == a[j1]);
            if j2 < a.len() {
                assert(x[j2] == a[j2]);
                assert(occurs_before(p, a[j1], a[j2]));
                let pp = choose|pp: int|
                    0 <= pp < p.len() && p[pp] == a[j1] && forall|q: int|
                        0 <= q <= pp ==> #[trigger] p[q] != a[j2];
                assert forall|q: int| 0 <= q <= pp implies #[trigger] ns[q] != x[j2] by {
                    assert(ns[q] == p[q]);
                }
                assert(ns[pp] == p[pp]);
            } else {
                // The new entry is the last name, absent from the earlier names.
                assert(x[j2] == ns.last());
                assert(!a.contains(ns.last()));
                assert(!p.contains(ns.last())) by {
                    if p.contains(ns.last()) {
                        lemma_first_appearance_has(p, ns.last());
                    }
                }
                assert(p.contains(a[j1]));
                let pp = choose|pp: int| 0 <= pp < p.len() && p[pp] == a[j1];
                assert forall|q: int| 0 <= q <= pp implies #[trigger] ns[q] != x[j2] by {
                    assert(ns[q] == p[q]);
                }
                assert(ns[pp] == p[pp]);
            }
        }
    }
}

proof fn lemma_keep_from(bs: Seq<Seq<MemberV>>, x: Seq<Seq<char>>)
    ensures
        forall|j: int|
            0 <= j < keep_discriminators(bs, x).len() ==> x.contains(
                #[trigger] keep_discriminators(bs, x)[j],
            ),
    decreases x.len(),
{
    if x.len() > 0 {
        let p = x.drop_last();
        lemma_keep_from(bs, p);
        let k = keep_discriminators(bs, p);
        assert forall|j: int| 0 <= j < keep_discriminators(bs, x).len() implies x.contains(
            #[trigger] keep_discriminators(bs, x)[j],
        ) by {
            if j < k.len() {
                assert(keep_discriminators(bs, x)[j] == k[j]);
                let i = choose|i: int| 0 <= i < p.len() && p[i] == k[j];
                assert(x[i] == p[i]);
            } else {
                assert(keep_discriminators(bs, x)[j] == x[x.len() - 1]);
            }
        }
    }
}

proof fn lemma_ordered_prefix(x: Seq<Seq<char>>, ns: Seq<Seq<char>>)
    requires
        ordered_by_first_occurrence(x, ns),
        x.len() > 0,
    ensures
        ordered_by_first_occurrence(x.drop_last(), ns),
{
    let p = x.drop_last();
    assert forall|j1: int, j2: int|
        0 <= j1 < j2 < p.len() implies #[trigger] occurs_before(ns, p[j1], p[j2]) by {
        assert(p[j1] == x[j1] && p[j2] == x[j2]);
        assert(occurs_before(ns, x[j1], x[j2]));
    }
}

proof fn lemma_keep_ordered(bs: Seq<Seq<MemberV>>, x: Seq<Seq<char>>, ns: Seq<Seq<char>>)
    requires
        ordered_by_first_occurrence(x, ns),
    ensures
        ordered_by_first_occurrence(keep_discriminators(bs, x), ns),
    decreases x.len(),
{
    if x.len() > 0 {
        let p = x.drop_last();
        lemma_ordered_prefix(x, ns);
        lemma_keep_ordered(bs, p, ns);
        lemma_keep_from(bs, p);
        let k = keep_discriminators(bs, p);
        let d = keep_discriminators(bs, x);
        if discriminates(bs, x.last()) {
            assert forall|j1: int, j2: int|
            0 <= j1 < j2 < d.len() implies #[trigger] occurs_before(ns, d[j1], d[j2]) by {
                assert(d[j1] == k[j1]);
                if j2 < k.len() {
                    assert(d[j2] == k[j2]);
                    assert(occurs_before(ns, k[j1], k[j2]));
                } else {
                    assert(d[j2] == x[x.len() - 1]);
                    assert(p.contains(k[j1]));
                    let i = choose|i: int| 0 <= i < p.len() && p[i] == k[j1];
                    assert(x[i] == k[j1]);
                    assert(occurs_before(ns, x[i], x[x.len() - 1]));
                }
            }
        }
    }
}

/// The detected discriminators come in the order their getters first
/// appear across the branches (each before any appearance of a later
/// one), and so none is listed twice.
pub proof fn law_discriminators_in_first_appearance_order(bs: Seq<Seq<MemberV>>)
    ensures
        ordered_by_first_occurrence(discriminators_spec(bs), names_in(flat(bs), Slot::Getter)),
        discriminators_spec(bs).no_duplicates(),
{
    let ns = names_in(flat(bs), Slot::Getter);
    let d = discriminators_spec(bs);
    if bs.len() >= 2 {
        lemma_first_appearance_ordered(ns);
        lemma_keep_ordered(bs, first_appearance(ns), ns);
    }
    assert forall|i: int, j: int| 0 <= i < d.len() && 0 <= j < d.len() && i != j implies d[i]
        != d[j] by {
        let (a, b) = if i < j {
            (i, j)
        } else {
            (j, i)
        };
        assert(occurs_before(ns, d[a], d[b]));
        let pp = choose|pp: int|
            0 <= pp < ns.len() && ns[pp] == d[a] && forall|q: int|
                0 <= q <= pp ==> #[trigger] ns[q] != d[b];
        assert(ns[pp] != d[b]);
    }
}


proof fn lemma_find_named_first(ms: Seq<MemberV>, n: Seq<char>)
    ensures
        find_named(ms, Slot::Getter, n) matches Some(m) ==> exists|k: int|
            0 <= k < ms.len() && ms[k] == m && forall|j: int|
                0 <= j < k ==> named(#[trigger] ms[j], Slot::Getter) != Some(n),
    decreases ms.len(),
{
    if ms.len() > 0 && named(ms[0], Slot::Getter) != Some(n) {
        lemma_find_named_first(ms.drop_first(), n);
        if let Some(m) = find_named(ms, Slot::Getter, n) {
            let t = ms.drop_first();
            let k = choose|k: int|
                0 <= k < t.len() && t[k] == m && forall|j: int|
                    0 <= j < k ==> named(#[trigger] t[j], Slot::Getter) != Some(n);
            assert(ms[k + 1] == m);
            assert forall|j: int| 0 <= j < k + 1 implies named(#[trigger] ms[j], Slot::Getter) != Some(
                n,
            ) by {
                if j > 0 {
                    assert(ms[j] == t[j - 1]);
                }
            }
        }
    }
}

/// `ms` has a getter named `n`, and the first one is required and typed
/// by a string, number or boolean literal.
pub open spec fn first_getter_required_literal(ms: Seq<MemberV>, n: Seq<char>) -> bool {
    exists|k: int|
        0 <= k < ms.len() && (#[trigger] ms[k] matches MemberV::Getter { js_name, ty, optional, .. }
            && js_name == n && !optional && (ty is StringLiteral || ty is NumberLiteral
            || ty is BooleanLiteral)) && forall|k2: int|
            0 <= k2 < k ==> !(#[trigger] ms[k2] matches MemberV::Getter { js_name, .. } && js_name
                == n)
}

/// Every detected discriminator, in every branch (there are at least
/// two), names a getter, and the first getter of that name there is
/// required and typed by a string, number or boolean literal.
pub proof fn law_discriminators_sound(bs: Seq<Seq<MemberV>>, j: int)
    requires
        0 <= j < discriminators_spec(bs).len(),
    ensures
        bs.len() >= 2,
        forall|i: int|
            0 <= i < bs.len() ==> first_getter_required_literal(
                #[trigger] bs[i],
                discriminators_spec(bs)[j],
            ),
{
    let n = discriminators_spec(bs)[j];
    law_discriminators_hold(bs, j);
    assert forall|i: int| 0 <= i < bs.len() implies first_getter_required_literal(
        #[trigger] bs[i],
        n,
    ) by {
        assert(match find_named(bs[i], Slot::Getter, n) {
            Some(g) => !prop_optional(g) && is_literal_ty(prop_ty(g)),
            None => false,
        });
        lemma_find_named(bs[i], Slot::Getter, n);
        lemma_find_named_first(bs[i], n);
        let g = find_named(bs[i], Slot::Getter, n)->0;
        let ms = bs[i];
        let k = choose|k: int|
            0 <= k < ms.len() && ms[k] == g && forall|jj: int|
                0 <= jj < k ==> named(#[trigger] ms[jj], Slot::Getter) != Some(n);
        assert forall|k2: int| 0 <= k2 < k implies !(#[trigger] ms[k2] matches MemberV::Getter {
            js_name,
            ..
        } && js_name == n) by {
            assert(named(ms[k2], Slot::Getter) != Some(n));
        }
        assert(ms[k] matches MemberV::Getter { js_name, ty, optional, .. } && js_name == n
            && !optional && (ty is StringLiteral || ty is NumberLiteral || ty is BooleanLiteral));
    }
}

} // verus!
