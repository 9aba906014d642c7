//! Class and interface members: property names, body scopes of
//! type-parameter-bearing members, hoisting of `Iterable<T>` returns into
//! named wrapper interfaces, and the conversion of property, accessor and
//! index-signature members.
//!
//! Members with type parameters get a fresh child scope of the enclosing
//! scope holding them as type-parameter bindings; its id is the member's
//! `body_scope`, so code generation resolves names lexically.

use vstd::prelude::*;
use crate::ctx::{ctx_grows, ParseCtx};
use crate::docs::JsDocInfo;
use crate::ir::{
    opt_str_view, tys_view, InterfaceClassification, InterfaceDecl, Member, MemberV,
    MethodMember, Throws, TyV, TypeParam, TypeRef,
};
use crate::naming::{pascal_case_of, to_pascal_case};
use crate::scope::{
    arena_wf, resolve_binding_spec, set_entry, Binding, ScopeArena, ScopeId, ScopeRecord,
};
use crate::literal_union::members_view;
use crate::populate::doc_at;
use crate::types::{
    convert_ts_type_scoped, opt_new_scopes, opt_scopes, ts_ty, ty_new_scopes, ty_scopes, TsType,
};
use crate::text::{
    chars_of, decimal, lemma_decimal_digits, lemma_decimal_injective, lemma_distinct_bound,
    push_decimal, push_str, string_of,
};

verus! {

// ---------------------------------------------------------------------
// Property keys
// ---------------------------------------------------------------------

/// The key of a property, as written. A numeric key holds the text
/// JavaScript renders for the number.
pub enum PropertyKey {
    StaticIdentifier(String),
    StringLiteral(String),
    NumericLiteral(String),
    /// A computed key such as `[Symbol.iterator]`.
    Computed,
}

pub open spec fn key_name(k: PropertyKey) -> Option<Seq<char>> {
    match k {
        PropertyKey::StaticIdentifier(s) => Some(s@),
        PropertyKey::StringLiteral(s) => Some(s@),
        PropertyKey::NumericLiteral(s) => Some(s@),
        PropertyKey::Computed => None,
    }
}

/// The name of a property key; none for a computed key.
pub fn property_key_name(key: &PropertyKey) -> (r: Option<String>)
    ensures
        opt_str_view(r) == key_name(*key),
{
    match key {
        PropertyKey::StaticIdentifier(ident) => Some(ident.clone()),
        PropertyKey::StringLiteral(s) => Some(s.clone()),
        PropertyKey::NumericLiteral(n) => Some(n.clone()),
        PropertyKey::Computed => None,
    }
}

/// Split a doc lookup into the doc text and its structured info, with
/// empty info when no JSDoc is attached.
pub fn split_info(opt: Option<(String, JsDocInfo)>) -> (r: (Option<String>, JsDocInfo))
    ensures
        match opt {
            Some((doc, info)) => r.0 == Some(doc) && r.1 == info,
            None => r.0 is None && r.1.throws@.len() == 0 && !r.1.nothrow,
        },
{
    match opt {
        Some((doc, info)) => (Some(doc), info),
        None => (None, JsDocInfo { throws: Vec::new(), nothrow: false }),
    }
}

/// The entries of a scope holding the type parameters `names`, bound in
/// order.
pub open spec fn type_param_entries(names: Seq<Seq<char>>) -> Seq<(Seq<char>, Binding)>
    decreases names.len(),
{
    if names.len() == 0 {
        seq![]
    } else {
        set_entry(type_param_entries(names.drop_last()), names.last(), Binding::TypeParam)
    }
}

pub open spec fn type_param_names(tps: Seq<TypeParam>) -> Seq<Seq<char>> {
    tps.map_values(|p: TypeParam| p.name@)
}

/// Push the type parameters into a fresh child of `parent_scope` and
/// return it.
pub fn create_body_scope(type_params: &[TypeParam], parent_scope: ScopeId, ctx: &mut ParseCtx) -> (id: ScopeId)
    requires
        parent_scope.index() < old(ctx).scopes@.len(),
        old(ctx).scopes@.len() < u32::MAX,
    ensures
        id.index() == old(ctx).scopes@.len(),
        final(ctx).scopes@ == old(ctx).scopes@.push(
            ScopeRecord {
                parent: Some(parent_scope),
                entries: type_param_entries(type_param_names(type_params@)),
            },
        ),
        arena_wf(old(ctx).scopes@) ==> arena_wf(final(ctx).scopes@),
        final(ctx).docs == old(ctx).docs,
        final(ctx).used_type_names == old(ctx).used_type_names,
        final(ctx).synth == old(ctx).synth,
{
    let ghost start = ctx.scopes@;
    let ghost docs0 = ctx.docs;
    let ghost used0 = ctx.used_type_names;
    let ghost synth0 = ctx.synth;
    let body_scope = ctx.scopes.create_child(parent_scope);
    let ghost names = type_param_names(type_params@);
    let mut i: usize = 0;
    while i < type_params.len()
        invariant
            i <= type_params.len(),
            names == type_param_names(type_params@),
            body_scope.index() == start.len(),
            ctx.scopes@ == start.push(
                ScopeRecord {
                    parent: Some(parent_scope),
                    entries: type_param_entries(names.take(i as int)),
                },
            ),
            arena_wf(start) ==> arena_wf(ctx.scopes@),
            parent_scope.index() < start.len(),
            ctx.docs == docs0,
            ctx.used_type_names == used0,
            ctx.synth == synth0,
        decreases type_params.len() - i,
    {
        let ghost prev = ctx.scopes@;
        ctx.scopes.insert_type_param(body_scope, type_params[i].name.clone());
        assert(names.take(i + 1).drop_last() =~= names.take(i as int));
        assert(names.take(i + 1).last() == type_params@[i as int].name@);
        assert(ctx.scopes@ =~= start.push(
            ScopeRecord {
                parent: Some(parent_scope),
                entries: type_param_entries(names.take(i + 1)),
            },
        ));
        i = i + 1;
    }
    assert(names.take(type_params.len() as int) =~= names);
    body_scope
}

// ---------------------------------------------------------------------
// Type parameters a type mentions
// ---------------------------------------------------------------------

/// `acc` followed by the bare references of `t` that resolve to a type
/// parameter from `scope`, in order of appearance, each once.
pub open spec fn collect_tp(s: Seq<ScopeRecord>, scope: int, t: TyV, acc: Seq<Seq<char>>) -> Seq<
    Seq<char>,
>
    decreases t,
{
    match t {
        TyV::Reference(segs, args) => if segs.len() == 1 && args.len() == 0
            && resolve_binding_spec(s, scope, segs[0]) == Some(Binding::TypeParam) {
            if acc.contains(segs[0]) {
                acc
            } else {
                acc.push(segs[0])
            }
        } else {
            collect_tps(s, scope, args, acc)
        },
        TyV::Array(b) => collect_tp(s, scope, *b, acc),
        TyV::Nullable(b) => collect_tp(s, scope, *b, acc),
        TyV::Union(ms) => collect_tps(s, scope, ms, acc),
        TyV::Intersection(ms) => collect_tps(s, scope, ms, acc),
        TyV::Tuple(ms) => collect_tps(s, scope, ms, acc),
        TyV::Function(ps, ret) => collect_tp(s, scope, *ret, collect_params(s, scope, ps, acc)),
        _ => acc,
    }
}

pub open spec fn collect_tps(s: Seq<ScopeRecord>, scope: int, ts: Seq<TyV>, acc: Seq<Seq<char>>) -> Seq<
    Seq<char>,
>
    decreases ts,
{
    if ts.len() == 0 {
        acc
    } else {
        collect_tp(s, scope, ts.last(), collect_tps(s, scope, ts.drop_last(), acc))
    }
}

pub open spec fn collect_params(
    s: Seq<ScopeRecord>,
    scope: int,
    ps: Seq<crate::ir::ParamV>,
    acc: Seq<Seq<char>>,
) -> Seq<Seq<char>>
    decreases ps,
{
    if ps.len() == 0 {
        acc
    } else {
        collect_tp(s, scope, ps.last().ty, collect_params(s, scope, ps.drop_last(), acc))
    }
}

pub open spec fn names_view(v: Seq<String>) -> Seq<Seq<char>> {
    v.map_values(|s: String| s@)
}

fn contains_name(v: &Vec<String>, x: &String) -> (r: bool)
    ensures
        r == names_view(v@).contains(x@),
{
    let mut i: usize = 0;
    while i < v.len()
        invariant
            i <= v.len(),
            forall|k: int| 0 <= k < i ==> #[trigger] v@[k]@ != x@,
        decreases v.len() - i,
    {
        if crate::text::str_eq(v[i].as_str(), x.as_str()) {
            assert(names_view(v@)[i as int] == x@);
            return true;
        }
        i = i + 1;
    }
    assert(!names_view(v@).contains(x@)) by {
        if names_view(v@).contains(x@) {
            let k = choose|k: int| 0 <= k < v.len() && names_view(v@)[k] == x@;
            assert(v@[k]@ != x@);
        }
    }
    false
}

/// Collect the bare references of `ty` that resolve to a type parameter
/// in the scope chain of `scope`, in order of appearance, each once.
pub fn collect_in_scope_type_params(ty: &TypeRef, scope: ScopeId, scopes: &ScopeArena, out: &mut Vec<String>)
    requires
        scopes.wf(),
        scope.index() < scopes@.len(),
    ensures
        names_view(final(out)@) == collect_tp(scopes@, scope.index(), ty@, names_view(old(out)@)),
    decreases ty,
{
    match ty {
        TypeRef::Reference { segments, generic_args } => {
            proof {
                crate::ir::lemma_tys_view(generic_args@);
            }
            if segments.len() == 1 && generic_args.len() == 0 {
                let name = &segments[0];
                assert(segments@.map_values(|s: String| s@)[0] == name@);
                match scopes.resolve_binding(scope, name.as_str()) {
                    Some(Binding::TypeParam) => {
                        if !contains_name(out, name) {
                            let ghost prev = out@;
                            out.push(name.clone());
                            assert(names_view(out@) =~= names_view(prev).push(name@));
                        }
                        return;
                    },
                    _ => {},
                }
            }
            collect_list(generic_args, scope, scopes, out);
        },
        TypeRef::Array(inner) => collect_in_scope_type_params(inner, scope, scopes, out),
        TypeRef::Nullable(inner) => collect_in_scope_type_params(inner, scope, scopes, out),
        TypeRef::Union(members) => collect_list(members, scope, scopes, out),
        TypeRef::Intersection(members) => collect_list(members, scope, scopes, out),
        TypeRef::Tuple(members) => collect_list(members, scope, scopes, out),
        TypeRef::Function(sig) => {
            collect_param_list(&sig.params, scope, scopes, out);
            collect_in_scope_type_params(&sig.return_type, scope, scopes, out);
        },
        _ => {},
    }
}

fn collect_param_list(v: &Vec<crate::ir::Param>, scope: ScopeId, scopes: &ScopeArena, out: &mut Vec<String>)
    requires
        scopes.wf(),
        scope.index() < scopes@.len(),
    ensures
        names_view(final(out)@) == collect_params(
            scopes@,
            scope.index(),
            crate::ir::params_view(v@),
            names_view(old(out)@),
        ),
    decreases v,
{
    let ghost start = names_view(out@);
    let ghost pv = crate::ir::params_view(v@);
    proof {
        crate::ir::lemma_params_view(v@);
    }
    let mut i: usize = 0;
    while i < v.len()
        invariant
            i <= v.len(),
            scopes.wf(),
            scope.index() < scopes@.len(),
            pv == crate::ir::params_view(v@),
            pv.len() == v.len(),
            forall|k: int| 0 <= k < v.len() ==> #[trigger] pv[k] == v@[k]@,
            names_view(out@) == collect_params(scopes@, scope.index(), pv.take(i as int), start),
        decreases v.len() - i,
    {
        assert(decreases_to!(v => v@[i as int]));
        assert(pv.take(i + 1).drop_last() =~= pv.take(i as int));
        assert(pv.take(i + 1).last().ty == v@[i as int].type_ref@);
        collect_in_scope_type_params(&v[i].type_ref, scope, scopes, out);
        i = i + 1;
    }
    assert(pv.take(v.len() as int) =~= pv);
}

fn collect_list(v: &Vec<TypeRef>, scope: ScopeId, scopes: &ScopeArena, out: &mut Vec<String>)
    requires
        scopes.wf(),
        scope.index() < scopes@.len(),
    ensures
        names_view(final(out)@) == collect_tps(scopes@, scope.index(), tys_view(v@), names_view(old(out)@)),
    decreases v,
{
    let ghost start = names_view(out@);
    let ghost tv = tys_view(v@);
    proof {
        crate::ir::lemma_tys_view(v@);
    }
    let mut i: usize = 0;
    while i < v.len()
        invariant
            i <= v.len(),
            scopes.wf(),
            scope.index() < scopes@.len(),
            tv == tys_view(v@),
            tv.len() == v.len(),
            forall|k: int| 0 <= k < v.len() ==> #[trigger] tv[k] == v@[k]@,
            names_view(out@) == collect_tps(scopes@, scope.index(), tv.take(i as int), start),
        decreases v.len() - i,
    {
        assert(decreases_to!(v => v@[i as int]));
        assert(tv.take(i + 1).drop_last() =~= tv.take(i as int));
        assert(tv.take(i + 1).last() == v@[i as int]@);
        collect_in_scope_type_params(&v[i], scope, scopes, out);
        i = i + 1;
    }
    assert(tv.take(v.len() as int) =~= tv);
}

// ---------------------------------------------------------------------
// Synthesized type names
// ---------------------------------------------------------------------

/// The `i`-th candidate name for a synthesized type: the base itself,
/// then `base2`, `base3`, ...
pub open spec fn candidate(base: Seq<char>, i: nat) -> Seq<char> {
    base + decimal(i)
}

/// The name a synthesized type gets: `base` when unused, else the first
/// `base<i>`, `i >= 2`, not in use.
pub open spec fn is_unique_name(used: Seq<Seq<char>>, base: Seq<char>, r: Seq<char>) -> bool {
    if !used.contains(base) {
        r == base
    } else {
        exists|k: nat|
            k >= 2 && r == candidate(base, k) && !used.contains(r) && forall|j: nat|
                2 <= j < k ==> used.contains(#[trigger] candidate(base, j))
    }
}

proof fn lemma_candidates_distinct(base: Seq<char>, a: nat, b: nat)
    requires
        candidate(base, a) == candidate(base, b),
    ensures
        a == b,
{
    assert(decimal(a) =~= candidate(base, a).skip(base.len() as int));
    assert(decimal(b) =~= candidate(base, b).skip(base.len() as int));
    lemma_decimal_injective(a, b);
}

/// Compute a unique name for a type hoisted from `<parent>.<member>(...)`:
/// `parent` followed by `member` in PascalCase, with a numeric suffix on
/// collision.
pub fn unique_type_name(parent: &str, member: &str, used: &Vec<String>) -> (r: String)
    requires
        used@.len() + 2 < usize::MAX,
    ensures
        is_unique_name(names_view(used@), parent@ + pascal_case_of(member@), r@),
{
    let ghost uv = names_view(used@);
    let pascal = to_pascal_case(member);
    let mut base_v = chars_of(parent);
    crate::text::push_str(&mut base_v, pascal.as_str());
    let base = string_of(&base_v);
    if !contains_name(used, &base) {
        return base;
    }
    let mut i: usize = 2;
    loop
        invariant
            2 <= i,
            uv == names_view(used@),
            used@.len() + 2 < usize::MAX,
            base@ == parent@ + pascal_case_of(member@),
            uv.contains(base@),
            i - 2 <= uv.len(),
            forall|j: nat| 2 <= j < i ==> uv.contains(#[trigger] candidate(base@, j)),
        decreases uv.len() + 2 - i,
    {
        let mut cand = chars_of(base.as_str());
        push_decimal(&mut cand, i);
        let candidate_s = string_of(&cand);
        if !contains_name(used, &candidate_s) {
            proof {
                assert(candidate_s@ == candidate(base@, i as nat));
            }
            return candidate_s;
        }
        proof {
            let w = Seq::new((i - 1) as nat, |j: int| candidate(base@, (j + 2) as nat));
            assert forall|a: int, b: int| 0 <= a < w.len() && 0 <= b < w.len() && a != b implies w[a]
                != w[b] by {
                if w[a] == w[b] {
                    lemma_candidates_distinct(base@, (a + 2) as nat, (b + 2) as nat);
                }
            }
            assert forall|k: int| 0 <= k < w.len() implies uv.contains(#[trigger] w[k]) by {
                if k + 2 < i {
                    assert(uv.contains(candidate(base@, (k + 2) as nat)));
                } else {
                    assert(candidate_s@ == candidate(base@, i as nat));
                }
            }
            lemma_distinct_bound(w, uv);
            uv.lemma_cardinality_of_set();
        }
        i = i + 1;
    }
}

// ---------------------------------------------------------------------
// Iterable returns
// ---------------------------------------------------------------------

/// A top-level `Iterable<T>` (not async) or `AsyncIterable<T>` (async)
/// return, with its item type `T`.
pub open spec fn iterable_item(t: TyV) -> Option<(bool, TyV)> {
    match t {
        TyV::Reference(segs, args) => if segs.len() == 1 && args.len() > 0 {
            if segs[0] == "Iterable"@ {
                Some((false, args[0]))
            } else if segs[0] == "AsyncIterable"@ {
                Some((true, args[0]))
            } else {
                None
            }
        } else {
            None
        },
        _ => None,
    }
}

/// The doc of the iterator method of a synthesized wrapper.
pub open spec fn iterator_doc(is_async: bool) -> Seq<char> {
    if is_async {
        "Conformance to the JS async iteration protocol — returns the underlying iterator."@
    } else {
        "Conformance to the JS iteration protocol — returns the underlying iterator."@
    }
}

/// The iterator method of a wrapper over items of type `item`.
pub open spec fn iterator_method(is_async: bool, item: TyV, body: ScopeId) -> MemberV {
    MemberV::Method(
        crate::ir::CallableV {
            name: if is_async {
                "async_iterator"@
            } else {
                "iterator"@
            },
            js_name: if is_async {
                "[Symbol.asyncIterator]"@
            } else {
                "[Symbol.iterator]"@
            },
            type_params: seq![],
            params: seq![],
            return_type: TyV::Reference(
                seq![
                    if is_async {
                        "AsyncIterator"@
                    } else {
                        "Iterator"@
                    },
                ],
                seq![item],
            ),
            optional: false,
            doc: Some(iterator_doc(is_async)),
            throws: crate::ir::ThrowsV::Unannotated,
            body_scope: body,
        },
    )
}

/// A type parameter with no constraint and no default.
pub open spec fn bare_type_param(n: Seq<char>) -> crate::ir::TypeParamV {
    crate::ir::TypeParamV { name: n, constraint: None, default: None }
}

fn iterator_member(is_async: bool, item: TypeRef, body_scope: ScopeId) -> (r: Member)
    ensures
        r@ == iterator_method(is_async, item@, body_scope),
{
    let head = if is_async {
        "AsyncIterator"
    } else {
        "Iterator"
    };
    let mut args: Vec<TypeRef> = Vec::new();
    args.push(item);
    proof {
        crate::ir::lemma_tys_view(args@);
    }
    assert(tys_view(args@) =~= seq![item@]);
    let ret = TypeRef::generic(head, args);
    let params: Vec<crate::ir::Param> = Vec::new();
    let type_params: Vec<TypeParam> = Vec::new();
    proof {
        crate::ir::lemma_params_view(params@);
    }
    assert(crate::ir::params_view(params@) =~= Seq::<crate::ir::ParamV>::empty());
    assert(type_params@.map_values(|p: TypeParam| p@) =~= Seq::<crate::ir::TypeParamV>::empty());
    let m = MethodMember {
        name: if is_async {
            "async_iterator".to_string()
        } else {
            "iterator".to_string()
        },
        js_name: if is_async {
            "[Symbol.asyncIterator]".to_string()
        } else {
            "[Symbol.iterator]".to_string()
        },
        type_params,
        params,
        return_type: ret,
        optional: false,
        doc: Some(
            if is_async {
                "Conformance to the JS async iteration protocol — returns the underlying iterator.".to_string()
            } else {
                "Conformance to the JS iteration protocol — returns the underlying iterator.".to_string()
            },
        ),
        throws: Throws::Unannotated,
        body_scope,
    };
    Member::Method(m)
}

/// Rewrite a top-level `Iterable<T>` / `AsyncIterable<T>` return into a
/// reference to a synthesized wrapper interface with a single
/// `[Symbol.iterator]()` (or `[Symbol.asyncIterator]()`) method returning
/// `Iterator<T>` (or `AsyncIterator<T>`). The wrapper carries the type
/// parameters in scope that `T` mentions, binds them in its own body
/// scope, and is pushed onto `ctx.synth` under a fresh name; the return
/// becomes that name applied to those parameters. Anything else gives
/// `None` and leaves `ctx` as it was.
pub fn try_synthesize_iterable_return(
    ty: &TypeRef,
    parent_name: &str,
    member_name: &str,
    enclosing_scope: ScopeId,
    ctx: &mut ParseCtx,
) -> (r: Option<TypeRef>)
    requires
        old(ctx).scopes.wf(),
        enclosing_scope.index() < old(ctx).scopes@.len(),
        old(ctx).scopes@.len() + 2 < u32::MAX,
        old(ctx).used_type_names@.len() + 3 < usize::MAX,
    ensures
        match iterable_item(ty@) {
            None => r is None && *final(ctx) == *old(ctx),
            Some((is_async, item)) => {
                let s0 = old(ctx).scopes@;
                let tps = collect_tp(s0, enclosing_scope.index(), item, seq![]);
                match r {
                    Some(t) => exists|name: Seq<char>|
                        {
                            &&& is_unique_name(
                                names_view(old(ctx).used_type_names@),
                                parent_name@ + pascal_case_of(member_name@),
                                name,
                            )
                            &&& t@ == TyV::Reference(
                                seq![name],
                                tps.map_values(|n: Seq<char>| crate::docs::ident_ty(n)),
                            )
                            &&& names_view(final(ctx).used_type_names@) == names_view(
                                old(ctx).used_type_names@,
                            ).push(name)
                            &&& final(ctx).scopes@.len() == s0.len() + 2
                            &&& final(ctx).scopes@.take(s0.len() as int) == s0
                            &&& final(ctx).scopes@[s0.len() as int] == ScopeRecord {
                                parent: Some(enclosing_scope),
                                entries: type_param_entries(tps),
                            }
                            &&& final(ctx).scopes@[s0.len() as int + 1].entries == Seq::<
                                (Seq<char>, Binding),
                            >::empty()
                            &&& final(ctx).scopes@[s0.len() as int + 1].parent matches Some(p)
                                && p.index() == s0.len()
                            &&& final(ctx).synth@.len() == old(ctx).synth@.len() + 1
                            &&& final(ctx).synth@.take(old(ctx).synth@.len() as int)
                                == old(ctx).synth@
                            &&& {
                                let iface = final(ctx).synth@.last();
                                &&& iface.name@ == name
                                &&& iface.js_name@ == name
                                &&& iface.type_params@.map_values(|p: TypeParam| p@)
                                    == tps.map_values(|n: Seq<char>| bare_type_param(n))
                                &&& iface.extends@.len() == 0
                                &&& iface.members@.len() == 1
                                &&& iface.members@[0]@ matches MemberV::Method(c) && c.body_scope.index()
                                    == s0.len() + 1 && iface.members@[0]@ == iterator_method(
                                    is_async,
                                    item,
                                    c.body_scope,
                                )
                                &&& iface.classification == InterfaceClassification::ClassLike
                                &&& iface.body_scope.index() == s0.len()
                            }
                            &&& final(ctx).docs == old(ctx).docs
                        },
                    None => false,
                }
            },
        },
{
    let ghost s0 = ctx.scopes@;
    let (is_async, item_type) = match ty {
        TypeRef::Reference { segments, generic_args } => {
            proof {
                crate::ir::lemma_tys_view(generic_args@);
            }
            if segments.len() == 1 && generic_args.len() > 0 {
                assert(segments@.map_values(|s: String| s@)[0] == segments@[0]@);
                if crate::text::str_eq(segments[0].as_str(), "Iterable") {
                    (false, crate::ir::copy_ty(&generic_args[0]))
                } else if crate::text::str_eq(segments[0].as_str(), "AsyncIterable") {
                    (true, crate::ir::copy_ty(&generic_args[0]))
                } else {
                    return None;
                }
            } else {
                return None;
            }
        },
        _ => {
            return None;
        },
    };
    let mut tp_names: Vec<String> = Vec::new();
    assert(names_view(tp_names@) =~= Seq::<Seq<char>>::empty());
    collect_in_scope_type_params(&item_type, enclosing_scope, &ctx.scopes, &mut tp_names);
    let ghost tps = names_view(tp_names@);
    let mut synth_type_params: Vec<TypeParam> = Vec::new();
    let mut k: usize = 0;
    while k < tp_names.len()
        invariant
            k <= tp_names.len(),
            tps == names_view(tp_names@),
            synth_type_params@.len() == k,
            forall|j: int|
                0 <= j < k ==> (#[trigger] synth_type_params@[j])@ == bare_type_param(tps[j]),
        decreases tp_names.len() - k,
    {
        synth_type_params.push(TypeParam { name: tp_names[k].clone(), constraint: None, default: None });
        k = k + 1;
    }
    assert(type_param_names(synth_type_params@) =~= tps);
    let synth_name = unique_type_name(parent_name, member_name, &ctx.used_type_names);
    let ghost used0 = names_view(ctx.used_type_names@);
    ctx.used_type_names.push(synth_name.clone());
    assert(names_view(ctx.used_type_names@) =~= used0.push(synth_name@));
    let body_scope = create_body_scope(synth_type_params.as_slice(), enclosing_scope, ctx);
    let iter_method_body = ctx.scopes.create_child(body_scope);
    let iter_method = iterator_member(is_async, item_type, iter_method_body);
    let mut members: Vec<Member> = Vec::new();
    members.push(iter_method);
    let params_copy = crate::ir::copy_type_params(&synth_type_params);
    let ghost synth0 = ctx.synth@;
    ctx.synth.push(
        InterfaceDecl {
            name: synth_name.clone(),
            js_name: synth_name.clone(),
            type_params: params_copy,
            extends: Vec::new(),
            members,
            classification: InterfaceClassification::ClassLike,
            body_scope,
        },
    );
    let mut generic_args: Vec<TypeRef> = Vec::new();
    let mut j: usize = 0;
    while j < synth_type_params.len()
        invariant
            j <= synth_type_params.len(),
            synth_type_params@.len() == tps.len(),
            forall|m: int| 0 <= m < tps.len() ==> (#[trigger] synth_type_params@[m]).name@ == tps[m],
            tys_view(generic_args@) == tps.take(j as int).map_values(
                |n: Seq<char>| crate::docs::ident_ty(n),
            ),
        decreases synth_type_params.len() - j,
    {
        let t = TypeRef::ident(synth_type_params[j].name.as_str());
        let ghost prev = generic_args@;
        generic_args.push(t);
        proof {
            crate::ir::lemma_tys_view(prev);
            crate::ir::lemma_tys_view(generic_args@);
        }
        assert forall|m: int| 0 <= m <= j implies #[trigger] tys_view(generic_args@)[m]
            == crate::docs::ident_ty(tps[m]) by {
            if m < j {
                assert(tys_view(prev)[m] == tps.take(j as int).map_values(
                    |n: Seq<char>| crate::docs::ident_ty(n),
                )[m]);
                assert(generic_args@[m] == prev[m]);
            }
        }
        assert(tys_view(generic_args@) =~= tps.take(j + 1).map_values(
            |n: Seq<char>| crate::docs::ident_ty(n),
        ));
        j = j + 1;
    }
    assert(tps.take(tps.len() as int) =~= tps);
    let mut segments: Vec<String> = Vec::new();
    let ghost name = synth_name@;
    segments.push(synth_name);
    assert(segments@.map_values(|s: String| s@) =~= seq![name]);
    assert(ctx.scopes@.take(s0.len() as int) =~= s0);
    assert(ctx.synth@.take(synth0.len() as int) =~= synth0);
    assert(synth_type_params@.map_values(|p: TypeParam| p@) =~= tps.map_values(
        |n: Seq<char>| bare_type_param(n),
    ));
    Some(TypeRef::Reference { segments, generic_args })
}

// ---------------------------------------------------------------------
// Property, accessor and index-signature members
// ---------------------------------------------------------------------

/// A property signature of an interface body.
pub struct TsPropertySignature {
    pub span_start: u32,
    pub key: PropertyKey,
    pub optional: bool,
    pub readonly: bool,
    pub type_annotation: Option<TsType>,
}

/// An index signature: the annotated types of its key parameters, its
/// value type, and whether it is `readonly`.
pub struct TsIndexSignature {
    pub parameters: Vec<TsType>,
    pub type_annotation: TsType,
    pub readonly: bool,
}

/// A property of a class body.
pub struct PropertyDefinition {
    pub span_start: u32,
    pub key: PropertyKey,
    pub is_static: bool,
    pub optional: bool,
    pub readonly: bool,
    pub type_annotation: Option<TsType>,
}

/// An `accessor` property of a class body.
pub struct AccessorProperty {
    pub span_start: u32,
    pub key: PropertyKey,
    pub is_static: bool,
    pub type_annotation: Option<TsType>,
}

/// The type of an annotation; `any` when there is none.
pub open spec fn annotation_ty(a: Option<TsType>) -> TyV {
    match a {
        Some(t) => ts_ty(t),
        None => TyV::Any,
    }
}

/// A getter named `n`, followed by a setter unless `readonly`.
pub open spec fn property_members(
    n: Seq<char>,
    ty: TyV,
    optional: bool,
    doc: Option<Seq<char>>,
    readonly: bool,
) -> Seq<MemberV> {
    seq![MemberV::Getter { js_name: n, ty, optional, doc }] + if readonly {
        seq![]
    } else {
        seq![MemberV::Setter { js_name: n, ty, doc: None }]
    }
}

/// The static counterpart of `property_members`.
pub open spec fn static_property_members(n: Seq<char>, ty: TyV, doc: Option<Seq<char>>, readonly: bool) -> Seq<
    MemberV,
> {
    seq![MemberV::StaticGetter { js_name: n, ty, doc }] + if readonly {
        seq![]
    } else {
        seq![MemberV::StaticSetter { js_name: n, ty, doc: None }]
    }
}

/// Convert an optional annotation, `any` when absent.
pub(crate) fn convert_annotation(a: &Option<TsType>, scope: ScopeId, ctx: &mut ParseCtx) -> (r: TypeRef)
    requires
        scope.index() < old(ctx).scopes@.len(),
        old(ctx).scopes@.len() + opt_scopes(*a) < u32::MAX,
    ensures
        r@ == annotation_ty(*a),
        ctx_grows(
            *old(ctx),
            *final(ctx),
            opt_scopes(*a),
            opt_new_scopes(*a, scope, old(ctx).scopes@.len() as int),
        ),
{
    match a {
        Some(t) => convert_ts_type_scoped(t, scope, ctx),
        None => {
            proof {
                crate::types::lemma_grows_zero(ctx.scopes@);
            }
            TypeRef::Any
        },
    }
}

/// A getter (and setter unless read-only) for a property.
fn property_pair(js_name: String, type_ref: TypeRef, optional: bool, doc: Option<String>, readonly: bool, is_static: bool) -> (r: Vec<Member>)
    ensures
        members_view(r@) == if is_static {
            static_property_members(js_name@, type_ref@, opt_str_view(doc), readonly)
        } else {
            property_members(js_name@, type_ref@, optional, opt_str_view(doc), readonly)
        },
{
    let mut members: Vec<Member> = Vec::new();
    let second = crate::ir::copy_ty(&type_ref);
    if is_static {
        members.push(
            Member::StaticGetter(
                crate::ir::StaticGetterMember { js_name: js_name.clone(), type_ref, doc },
            ),
        );
        if !readonly {
            members.push(
                Member::StaticSetter(
                    crate::ir::StaticSetterMember { js_name, type_ref: second, doc: None },
                ),
            );
        }
    } else {
        members.push(
            Member::Getter(
                crate::ir::GetterMember { js_name: js_name.clone(), type_ref, optional, doc },
            ),
        );
        if !readonly {
            members.push(
                Member::Setter(crate::ir::SetterMember { js_name, type_ref: second, doc: None }),
            );
        }
    }
    assert(members_view(members@) =~= if is_static {
        static_property_members(js_name@, type_ref@, opt_str_view(doc), readonly)
    } else {
        property_members(js_name@, type_ref@, optional, opt_str_view(doc), readonly)
    });
    members
}

/// Convert a property signature: a getter, plus a setter unless it is
/// `readonly`; nothing for a computed key.
pub fn convert_property_signature(prop: &TsPropertySignature, parent_scope: ScopeId, ctx: &mut ParseCtx) -> (r: Vec<Member>)
    requires
        parent_scope.index() < old(ctx).scopes@.len(),
        old(ctx).scopes@.len() + opt_scopes(prop.type_annotation) < u32::MAX,
        old(ctx).docs.readable_at(prop.span_start),
    ensures
        match key_name(prop.key) {
            None => r@.len() == 0 && *final(ctx) == *old(ctx),
            Some(n) => members_view(r@) == property_members(
                n,
                annotation_ty(prop.type_annotation),
                prop.optional,
                doc_at(old(ctx).docs, prop.span_start),
                prop.readonly,
            ) && ctx_grows(
                *old(ctx),
                *final(ctx),
                opt_scopes(prop.type_annotation),
                opt_new_scopes(prop.type_annotation, parent_scope, old(ctx).scopes@.len() as int),
            ),
        },
{
    let js_name = match property_key_name(&prop.key) {
        Some(n) => n,
        None => {
            return Vec::new();
        },
    };
    let doc = ctx.docs.for_span(prop.span_start);
    let type_ref = convert_annotation(&prop.type_annotation, parent_scope, ctx);
    property_pair(js_name, type_ref, prop.optional, doc, prop.readonly, false)
}

/// Convert a class property: an instance or static getter, plus the
/// matching setter unless it is `readonly`; nothing for a computed key.
pub fn convert_class_property(prop: &PropertyDefinition, parent_scope: ScopeId, ctx: &mut ParseCtx) -> (r: Vec<Member>)
    requires
        parent_scope.index() < old(ctx).scopes@.len(),
        old(ctx).scopes@.len() + opt_scopes(prop.type_annotation) < u32::MAX,
        old(ctx).docs.readable_at(prop.span_start),
    ensures
        match key_name(prop.key) {
            None => r@.len() == 0 && *final(ctx) == *old(ctx),
            Some(n) => members_view(r@) == (if prop.is_static {
                static_property_members(
                    n,
                    annotation_ty(prop.type_annotation),
                    doc_at(old(ctx).docs, prop.span_start),
                    prop.readonly,
                )
            } else {
                property_members(
                    n,
                    annotation_ty(prop.type_annotation),
                    prop.optional,
                    doc_at(old(ctx).docs, prop.span_start),
                    prop.readonly,
                )
            }) && ctx_grows(
                *old(ctx),
                *final(ctx),
                opt_scopes(prop.type_annotation),
                opt_new_scopes(prop.type_annotation, parent_scope, old(ctx).scopes@.len() as int),
            ),
        },
{
    let js_name = match property_key_name(&prop.key) {
        Some(n) => n,
        None => {
            return Vec::new();
        },
    };
    let doc = ctx.docs.for_span(prop.span_start);
    let type_ref = convert_annotation(&prop.type_annotation, parent_scope, ctx);
    property_pair(js_name, type_ref, prop.optional, doc, prop.readonly, prop.is_static)
}

/// Convert an `accessor` property: a getter and a setter (static when
/// the property is); nothing for a computed key.
pub fn convert_accessor_property(acc: &AccessorProperty, parent_scope: ScopeId, ctx: &mut ParseCtx) -> (r: Vec<Member>)
    requires
        parent_scope.index() < old(ctx).scopes@.len(),
        old(ctx).scopes@.len() + opt_scopes(acc.type_annotation) < u32::MAX,
        old(ctx).docs.readable_at(acc.span_start),
    ensures
        match key_name(acc.key) {
            None => r@.len() == 0 && *final(ctx) == *old(ctx),
            Some(n) => members_view(r@) == (if acc.is_static {
                static_property_members(
                    n,
                    annotation_ty(acc.type_annotation),
                    doc_at(old(ctx).docs, acc.span_start),
                    false,
                )
            } else {
                property_members(
                    n,
                    annotation_ty(acc.type_annotation),
                    false,
                    doc_at(old(ctx).docs, acc.span_start),
                    false,
                )
            }) && ctx_grows(
                *old(ctx),
                *final(ctx),
                opt_scopes(acc.type_annotation),
                opt_new_scopes(acc.type_annotation, parent_scope, old(ctx).scopes@.len() as int),
            ),
        },
{
    let js_name = match property_key_name(&acc.key) {
        Some(n) => n,
        None => {
            return Vec::new();
        },
    };
    let doc = ctx.docs.for_span(acc.span_start);
    let type_ref = convert_annotation(&acc.type_annotation, parent_scope, ctx);
    property_pair(js_name, type_ref, false, doc, false, acc.is_static)
}

/// How many scopes converting an index signature appends.
pub open spec fn index_sig_scopes(idx: TsIndexSignature) -> nat {
    (if idx.parameters@.len() > 0 {
        ty_scopes(idx.parameters@[0])
    } else {
        0nat
    }) + ty_scopes(idx.type_annotation)
}

/// The scopes converting an index signature in `scope` appends to an
/// arena of length `base`.
pub open spec fn index_sig_new_scopes(idx: TsIndexSignature, scope: ScopeId, base: int) -> Seq<
    ScopeRecord,
> {
    if idx.parameters@.len() > 0 {
        ty_new_scopes(idx.parameters@[0], scope, base) + ty_new_scopes(
            idx.type_annotation,
            scope,
            base + ty_scopes(idx.parameters@[0]),
        )
    } else {
        ty_new_scopes(idx.type_annotation, scope, base)
    }
}

/// The member an index signature converts to.
pub open spec fn index_member(idx: TsIndexSignature) -> MemberV {
    MemberV::IndexSignature {
        key: if idx.parameters@.len() > 0 {
            ts_ty(idx.parameters@[0])
        } else {
            TyV::String
        },
        value: ts_ty(idx.type_annotation),
        readonly: idx.readonly,
    }
}

/// Convert an index signature: the type of its first key parameter
/// (`string` when it has none) and its value type.
pub fn convert_index_signature(idx: &TsIndexSignature, parent_scope: ScopeId, ctx: &mut ParseCtx) -> (r: Option<Member>)
    requires
        parent_scope.index() < old(ctx).scopes@.len(),
        old(ctx).scopes@.len() + index_sig_scopes(*idx) < u32::MAX,
    ensures
        r matches Some(m) && m@ == index_member(*idx),
        ctx_grows(
            *old(ctx),
            *final(ctx),
            index_sig_scopes(*idx),
            index_sig_new_scopes(*idx, parent_scope, old(ctx).scopes@.len() as int),
        ),
{
    let ghost s0 = ctx.scopes@;
    let key_type = if idx.parameters.len() > 0 {
        convert_ts_type_scoped(&idx.parameters[0], parent_scope, ctx)
    } else {
        proof {
            crate::types::lemma_grows_zero(ctx.scopes@);
        }
        TypeRef::String
    };
    let ghost s1 = ctx.scopes@;
    let value_type = convert_ts_type_scoped(&idx.type_annotation, parent_scope, ctx);
    proof {
        crate::types::lemma_grows_trans(
            s0,
            s1,
            ctx.scopes@,
            if idx.parameters@.len() > 0 {
                ty_scopes(idx.parameters@[0])
            } else {
                0nat
            },
            ty_scopes(idx.type_annotation),
        );
        if idx.parameters@.len() > 0 {
            assert(ctx.scopes@ =~= s0 + index_sig_new_scopes(*idx, parent_scope, s0.len() as int));
        } else {
            assert(s1 =~= s0);
        }
    }
    Some(
        Member::IndexSignature(
            crate::ir::IndexSigMember { key_type, value_type, readonly: idx.readonly },
        ),
    )
}


// ---------------------------------------------------------------------
// Methods, accessors and constructors
// ---------------------------------------------------------------------

/// The kind of a class method definition.
#[derive(Clone, Copy, PartialEq, Eq, Debug)]
pub enum MethodDefinitionKind {
    Constructor,
    Method,
    Getter,
    Setter,
}

/// The kind of an interface method signature.
#[derive(Clone, Copy, PartialEq, Eq, Debug)]
pub enum TsMethodSignatureKind {
    Method,
    Getter,
    Setter,
}

/// The class-method kind an interface method signature behaves as.
pub open spec fn signature_as_definition(kind: TsMethodSignatureKind) -> MethodDefinitionKind {
    match kind {
        TsMethodSignatureKind::Method => MethodDefinitionKind::Method,
        TsMethodSignatureKind::Getter => MethodDefinitionKind::Getter,
        TsMethodSignatureKind::Setter => MethodDefinitionKind::Setter,
    }
}

/// The type a setter takes: that of its first parameter, `any` without
/// one.
pub open spec fn setter_ty(params: Seq<crate::ir::ParamV>) -> TyV {
    if params.len() > 0 {
        params[0].ty
    } else {
        TyV::Any
    }
}

/// The members a class method definition becomes, given its converted
/// parts: a constructor; a getter or setter (static when the definition
/// is), the setter typed by its first parameter; or a method named in
/// snake case (static methods are never optional).
pub open spec fn class_method_spec(
    kind: MethodDefinitionKind,
    is_static: bool,
    optional: bool,
    js_name: Seq<char>,
    type_params: Seq<crate::ir::TypeParamV>,
    params: Seq<crate::ir::ParamV>,
    ret: TyV,
    doc: Option<Seq<char>>,
    throws: crate::ir::ThrowsV,
    body_scope: ScopeId,
) -> Seq<MemberV> {
    match kind {
        MethodDefinitionKind::Constructor => seq![MemberV::Constructor { params, doc, throws }],
        MethodDefinitionKind::Getter => if is_static {
            seq![MemberV::StaticGetter { js_name, ty: ret, doc }]
        } else {
            seq![MemberV::Getter { js_name, ty: ret, optional, doc }]
        },
        MethodDefinitionKind::Setter => if is_static {
            seq![MemberV::StaticSetter { js_name, ty: setter_ty(params), doc }]
        } else {
            seq![MemberV::Setter { js_name, ty: setter_ty(params), doc }]
        },
        MethodDefinitionKind::Method => {
            let c = crate::ir::CallableV {
                name: crate::naming::snake_spec(js_name),
                js_name,
                type_params,
                params,
                return_type: ret,
                optional: if is_static {
                    false
                } else {
                    optional
                },
                doc,
                throws,
                body_scope,
            };
            if is_static {
                seq![MemberV::StaticMethod(c)]
            } else {
                seq![MemberV::Method(c)]
            }
        },
    }
}

/// The body scope of a method: a constructor uses the enclosing type's
/// body scope; any other method gets a fresh child of it binding its own
/// type parameters.
pub fn method_body_scope(
    kind: MethodDefinitionKind,
    type_params: &[TypeParam],
    parent_scope: ScopeId,
    ctx: &mut ParseCtx,
) -> (id: ScopeId)
    requires
        parent_scope.index() < old(ctx).scopes@.len(),
        old(ctx).scopes@.len() < u32::MAX,
    ensures
        kind == MethodDefinitionKind::Constructor ==> id == parent_scope && *final(ctx)
            == *old(ctx),
        kind != MethodDefinitionKind::Constructor ==> {
            &&& id.index() == old(ctx).scopes@.len()
            &&& final(ctx).scopes@ == old(ctx).scopes@.push(
                ScopeRecord {
                    parent: Some(parent_scope),
                    entries: type_param_entries(type_param_names(type_params@)),
                },
            )
            &&& final(ctx).docs == old(ctx).docs
            &&& final(ctx).used_type_names == old(ctx).used_type_names
            &&& final(ctx).synth == old(ctx).synth
        },
        arena_wf(old(ctx).scopes@) ==> arena_wf(final(ctx).scopes@),
{
    match kind {
        MethodDefinitionKind::Constructor => parent_scope,
        _ => create_body_scope(type_params, parent_scope, ctx),
    }
}

/// The type a setter takes from its converted parameters.
fn setter_type(params: Vec<crate::ir::Param>) -> (r: TypeRef)
    ensures
        r@ == setter_ty(crate::ir::params_view(params@)),
{
    proof {
        crate::ir::lemma_params_view(params@);
    }
    if params.len() > 0 {
        let mut params = params;
        let p = params.remove(0);
        p.type_ref
    } else {
        TypeRef::Any
    }
}

/// The members a class method definition becomes, from its converted
/// parts (see `class_method_spec`): its name, type parameters, parameters
/// and return type, its doc text and the JSDoc info its `@throws` come
/// from, and its body scope.
pub fn class_method_members(
    kind: MethodDefinitionKind,
    is_static: bool,
    optional: bool,
    js_name: String,
    type_params: Vec<TypeParam>,
    params: Vec<crate::ir::Param>,
    return_type: TypeRef,
    doc: Option<String>,
    info: &JsDocInfo,
    body_scope: ScopeId,
) -> (r: Vec<Member>)
    ensures
        members_view(r@) == class_method_spec(
            kind,
            is_static,
            optional,
            js_name@,
            type_params@.map_values(|p: TypeParam| p@),
            crate::ir::params_view(params@),
            return_type@,
            opt_str_view(doc),
            crate::docs::throws_of(crate::docs::strings_view(info.throws@), info.nothrow),
            body_scope,
        ),
{
    let mut r: Vec<Member> = Vec::new();
    match kind {
        MethodDefinitionKind::Constructor => {
            r.push(Member::Constructor(crate::ir::ConstructorMember { params, doc, throws: info.throws() }));
        },
        MethodDefinitionKind::Getter => {
            if is_static {
                r.push(Member::StaticGetter(crate::ir::StaticGetterMember { js_name, type_ref: return_type, doc }));
            } else {
                r.push(Member::Getter(crate::ir::GetterMember { js_name, type_ref: return_type, optional, doc }));
            }
        },
        MethodDefinitionKind::Setter => {
            let type_ref = setter_type(params);
            if is_static {
                r.push(Member::StaticSetter(crate::ir::StaticSetterMember { js_name, type_ref, doc }));
            } else {
                r.push(Member::Setter(crate::ir::SetterMember { js_name, type_ref, doc }));
            }
        },
        MethodDefinitionKind::Method => {
            let name = crate::naming::to_snake_case(js_name.as_str());
            let throws = info.throws();
            if is_static {
                r.push(Member::StaticMethod(crate::ir::StaticMethodMember {
                    name,
                    js_name,
                    type_params,
                    params,
                    return_type,
                    doc,
                    throws,
                    body_scope,
                }));
            } else {
                r.push(Member::Method(MethodMember {
                    name,
                    js_name,
                    type_params,
                    params,
                    return_type,
                    optional,
                    doc,
                    throws,
                    body_scope,
                }));
            }
        },
    }
    assert(members_view(r@) =~= seq![r@[0]@]);
    r
}

/// The members an interface method signature becomes, from its converted
/// parts: as a non-static class method of the same kind.
pub fn method_signature_members(
    kind: TsMethodSignatureKind,
    optional: bool,
    js_name: String,
    type_params: Vec<TypeParam>,
    params: Vec<crate::ir::Param>,
    return_type: TypeRef,
    doc: Option<String>,
    info: &JsDocInfo,
    body_scope: ScopeId,
) -> (r: Vec<Member>)
    ensures
        members_view(r@) == class_method_spec(
            signature_as_definition(kind),
            false,
            optional,
            js_name@,
            type_params@.map_values(|p: TypeParam| p@),
            crate::ir::params_view(params@),
            return_type@,
            opt_str_view(doc),
            crate::docs::throws_of(crate::docs::strings_view(info.throws@), info.nothrow),
            body_scope,
        ),
{
    let k = match kind {
        TsMethodSignatureKind::Method => MethodDefinitionKind::Method,
        TsMethodSignatureKind::Getter => MethodDefinitionKind::Getter,
        TsMethodSignatureKind::Setter => MethodDefinitionKind::Setter,
    };
    class_method_members(k, false, optional, js_name, type_params, params, return_type, doc, info, body_scope)
}

} // verus!
