//! Subtyping lattice: parent chains of built-in JS types and of declared
//! classes and interfaces, and the most specific common ancestor (least
//! upper bound) of a set of types.
//!
//! This powers union simplification, including `@throws {T1 | T2}` whose
//! least upper bound becomes the error type. A user class or interface
//! contributes its first `extends` parent only. Anything without a known
//! parent falls back to `Object`.

use vstd::prelude::*;

use crate::context::{CodegenContext, GlobalContext};
use crate::ir::{TyV, TypeDeclaration, TypeKind, TypeRef};
use crate::scope::{resolve_spec, ScopeId};
use crate::text::{lemma_distinct_bound, str_eq};

verus! {

/// Built-in JS/TS supertype chains: name and immediate parents.
pub open spec fn builtin_table() -> Seq<(Seq<char>, Seq<Seq<char>>)> {
    seq![
        ("TypeError"@, seq!["Error"@]),
        ("RangeError"@, seq!["Error"@]),
        ("SyntaxError"@, seq!["Error"@]),
        ("ReferenceError"@, seq!["Error"@]),
        ("EvalError"@, seq!["Error"@]),
        ("URIError"@, seq!["Error"@]),
        ("AggregateError"@, seq!["Error"@]),
        ("DOMException"@, seq!["Error"@]),
        ("Int8Array"@, seq!["Object"@]),
        ("Uint8Array"@, seq!["Object"@]),
        ("Uint8ClampedArray"@, seq!["Object"@]),
        ("Int16Array"@, seq!["Object"@]),
        ("Uint16Array"@, seq!["Object"@]),
        ("Int32Array"@, seq!["Object"@]),
        ("Uint32Array"@, seq!["Object"@]),
        ("Float32Array"@, seq!["Object"@]),
        ("Float64Array"@, seq!["Object"@]),
        ("BigInt64Array"@, seq!["Object"@]),
        ("BigUint64Array"@, seq!["Object"@]),
        ("Array"@, seq!["Object"@]),
        ("Map"@, seq!["Object"@]),
        ("Set"@, seq!["Object"@]),
        ("WeakMap"@, seq!["Object"@]),
        ("WeakSet"@, seq!["Object"@]),
        ("Date"@, seq!["Object"@]),
        ("RegExp"@, seq!["Object"@]),
        ("Promise"@, seq!["Object"@]),
        ("Error"@, seq!["Object"@])
    ]
}

/// The parents the first table entry for `name` lists, or none.
pub open spec fn table_lookup(table: Seq<(Seq<char>, Seq<Seq<char>>)>, name: Seq<char>) -> Seq<Seq<char>>
    decreases table.len(),
{
    if table.len() == 0 {
        seq![]
    } else if table[0].0 == name {
        table[0].1
    } else {
        table_lookup(table.drop_first(), name)
    }
}

/// The built-in immediate parents of `name`; empty for unknown names.
pub open spec fn builtin_parents_spec(name: Seq<char>) -> Seq<Seq<char>> {
    table_lookup(builtin_table(), name)
}

fn builtin_entries() -> (t: Vec<(&'static str, &'static [&'static str])>)
    ensures
        t@.len() == builtin_table().len(),
        forall|i: int|
            0 <= i < t@.len() ==> (#[trigger] t@[i]).0@ == builtin_table()[i].0 && t@[i].1@.map_values(
                |s: &str| s@,
            ) == builtin_table()[i].1,
{
    let mut t: Vec<(&'static str, &'static [&'static str])> = Vec::new();
    t.push(("TypeError", &["Error"]));
    t.push(("RangeError", &["Error"]));
    t.push(("SyntaxError", &["Error"]));
    t.push(("ReferenceError", &["Error"]));
    t.push(("EvalError", &["Error"]));
    t.push(("URIError", &["Error"]));
    t.push(("AggregateError", &["Error"]));
    t.push(("DOMException", &["Error"]));
    t.push(("Int8Array", &["Object"]));
    t.push(("Uint8Array", &["Object"]));
    t.push(("Uint8ClampedArray", &["Object"]));
    t.push(("Int16Array", &["Object"]));
    t.push(("Uint16Array", &["Object"]));
    t.push(("Int32Array", &["Object"]));
    t.push(("Uint32Array", &["Object"]));
    t.push(("Float32Array", &["Object"]));
    t.push(("Float64Array", &["Object"]));
    t.push(("BigInt64Array", &["Object"]));
    t.push(("BigUint64Array", &["Object"]));
    t.push(("Array", &["Object"]));
    t.push(("Map", &["Object"]));
    t.push(("Set", &["Object"]));
    t.push(("WeakMap", &["Object"]));
    t.push(("WeakSet", &["Object"]));
    t.push(("Date", &["Object"]));
    t.push(("RegExp", &["Object"]));
    t.push(("Promise", &["Object"]));
    t.push(("Error", &["Object"]));
    t
}


/// The built-in immediate parents of `name`; empty for unknown names, which
/// callers then look up among the declared types.
pub fn builtin_parents(name: &str) -> (r: &'static [&'static str])
    ensures
        r@.map_values(|s: &str| s@) == builtin_parents_spec(name@),
{
    let t = builtin_entries();
    let ghost tab = builtin_table();
    assert(tab.skip(0) =~= tab);
    let mut i: usize = 0;
    while i < t.len()
        invariant
            i <= t@.len() == tab.len(),
            tab == builtin_table(),
            forall|k: int|
                0 <= k < t@.len() ==> (#[trigger] t@[k]).0@ == tab[k].0 && t@[k].1@.map_values(
                    |s: &str| s@,
                ) == tab[k].1,
            table_lookup(tab, name@) == table_lookup(tab.skip(i as int), name@),
        decreases t@.len() - i,
    {
        assert(tab.skip(i as int).drop_first() =~= tab.skip(i + 1));
        assert(tab.skip(i as int)[0] == tab[i as int]);
        if str_eq(t[i].0, name) {
            return t[i].1;
        }
        i = i + 1;
    }
    let empty: &'static [&'static str] = &[];
    assert(empty@.map_values(|s: &str| s@) =~= Seq::<Seq<char>>::empty());
    empty
}


/// The supertype name an `extends` type contributes: a bare reference
/// gives its name; generic instantiations and other shapes give none.
pub open spec fn ref_names(t: TyV) -> Seq<Seq<char>> {
    match t {
        TyV::Reference(segs, args) => if segs.len() == 1 && args.len() == 0 {
            seq![segs[0]]
        } else {
            seq![]
        },
        _ => seq![],
    }
}

/// The names a list of `extends` types contributes, in order.
pub open spec fn refs_names(s: Seq<TypeRef>) -> Seq<Seq<char>>
    decreases s.len(),
{
    if s.len() == 0 {
        seq![]
    } else {
        refs_names(s.drop_last()) + ref_names(s.last()@)
    }
}

/// The immediate parents a declaration names: a class's `extends`, an
/// interface's `extends` list; other kinds have none.
pub open spec fn decl_parents(d: TypeDeclaration) -> Seq<Seq<char>> {
    match d.kind {
        TypeKind::Class(c) => match c.extends {
            Some(t) => ref_names(t@),
            None => seq![],
        },
        TypeKind::Interface(i) => refs_names(i.extends@),
        _ => seq![],
    }
}

/// The declared immediate parents of the type `name` resolves to from `scope`.
pub open spec fn user_parents_spec(g: GlobalContext, scope: ScopeId, name: Seq<char>) -> Seq<
    Seq<char>,
> {
    match resolve_spec(g.scopes@, scope.index(), name) {
        Some(id) => if id.0 < g.types@.len() {
            decl_parents(g.types@[id.0 as int])
        } else {
            seq![]
        },
        None => seq![],
    }
}

pub open spec fn strings_view(v: Seq<String>) -> Seq<Seq<char>> {
    v.map_values(|s: String| s@)
}

/// Append copies of `v` to `r`.
pub fn extend_strings(r: &mut Vec<String>, v: &Vec<String>)
    ensures
        strings_view(final(r)@) == strings_view(old(r)@) + strings_view(v@),
{
    let ghost before = r@;
    let mut m: usize = 0;
    while m < v.len()
        invariant
            m <= v@.len(),
            r@.len() == before.len() + m,
            forall|k: int| 0 <= k < before.len() ==> #[trigger] r@[k] == before[k],
            forall|k: int| 0 <= k < m ==> #[trigger] r@[before.len() + k]@ == v@[k]@,
        decreases v@.len() - m,
    {
        r.push(v[m].clone());
        m = m + 1;
    }
    assert forall|k: int| 0 <= k < r@.len() implies #[trigger] strings_view(r@)[k] == (
    strings_view(before) + strings_view(v@))[k] by {
        if k < before.len() {
            assert(r@[k] == before[k]);
        } else {
            assert(r@[before.len() + (k - before.len())]@ == v@[k - before.len()]@);
        }
    }
    assert(strings_view(r@) =~= strings_view(before) + strings_view(v@));
}

/// The name an `extends` type contributes, if it has a single one.
fn parent_typeref_to_names(ty: &TypeRef) -> (r: Vec<String>)
    ensures
        strings_view(r@) == ref_names(ty@),
{
    let mut r: Vec<String> = Vec::new();
    if let Some(n) = ty.as_ident() {
        r.push(n.to_string());
    }
    assert(strings_view(r@) =~= ref_names(ty@));
    r
}

/// The immediate parents the type `name` resolves to (from `scope`)
/// declares: zero or one for a class, possibly several for an interface.
fn user_parents(name: &str, ctx: &CodegenContext<'_>, scope: ScopeId) -> (r: Vec<String>)
    requires
        ctx.gctx.wf(),
        scope.index() < ctx.gctx.scopes@.len(),
    ensures
        strings_view(r@) == user_parents_spec(*ctx.gctx, scope, name@),
{
    let Some(type_id) = ctx.gctx.scopes.resolve(scope, name) else {
        return Vec::new();
    };
    proof {
        lemma_resolved_in_range(*ctx.gctx, scope.index(), name@);
    }
    let decl = ctx.gctx.get_type(type_id);
    match &decl.kind {
        TypeKind::Class(c) => match &c.extends {
            Some(parent) => parent_typeref_to_names(parent),
            None => Vec::new(),
        },
        TypeKind::Interface(i) => {
            let mut r: Vec<String> = Vec::new();
            let mut k: usize = 0;
            while k < i.extends.len()
                invariant
                    k <= i.extends@.len(),
                    strings_view(r@) == refs_names(i.extends@.take(k as int)),
                decreases i.extends@.len() - k,
            {
                let names = parent_typeref_to_names(&i.extends[k]);
                extend_strings(&mut r, &names);
                assert(i.extends@.take(k + 1).drop_last() =~= i.extends@.take(k as int));
                k = k + 1;
            }
            assert(i.extends@.take(i.extends@.len() as int) =~= i.extends@);
            r
        },
        _ => Vec::new(),
    }
}

/// A declared binding that resolution reaches lies in the type arena.
proof fn lemma_resolved_in_range(g: GlobalContext, scope: int, name: Seq<char>)
    requires
        g.wf(),
    ensures
        resolve_spec(g.scopes@, scope, name) matches Some(id) ==> id.0 < g.types@.len(),
    decreases scope,
{
    let s = g.scopes@;
    if 0 <= scope < s.len() {
        crate::scope::lemma_key_index_bounds(s[scope].entries, name);
        match crate::scope::lookup(s[scope].entries, name) {
            Some(b) => {
                let k = crate::scope::key_index(s[scope].entries, name)->0;
                assert(s[scope].entries[k].1 == b);
            },
            None => {
                match s[scope].parent {
                    Some(p) => {
                        if 0 <= p.index() < scope {
                            lemma_resolved_in_range(g, p.index(), name);
                        }
                    },
                    None => {},
                }
            },
        }
    }
}


/// The next supertype in a chain: the first built-in parent, else the first
/// declared parent, else none.
pub open spec fn next_parent(g: GlobalContext, scope: ScopeId, x: Seq<char>) -> Option<Seq<char>> {
    if builtin_parents_spec(x).len() > 0 {
        Some(builtin_parents_spec(x)[0])
    } else if user_parents_spec(g, scope, x).len() > 0 {
        Some(user_parents_spec(g, scope, x)[0])
    } else {
        None
    }
}

/// `w` starts at `name`, repeats no name and follows `next_parent`.
pub open spec fn is_walk(g: GlobalContext, scope: ScopeId, name: Seq<char>, w: Seq<Seq<char>>) -> bool {
    &&& w.len() > 0
    &&& w[0] == name
    &&& w.no_duplicates()
    &&& forall|i: int|
        0 <= i < w.len() - 1 ==> next_parent(g, scope, #[trigger] w[i]) == Some(w[i + 1])
}

/// `r` is the ancestor chain of `name`: the walk from `name` up to the
/// first repeated name, or up to a name without parent, followed by
/// `Object` unless that name is `Object` itself.
pub open spec fn is_ancestor_chain(
    g: GlobalContext,
    scope: ScopeId,
    name: Seq<char>,
    r: Seq<Seq<char>>,
) -> bool {
    ||| {
        &&& is_walk(g, scope, name, r)
        &&& next_parent(g, scope, r.last()) is Some
        &&& r.contains(next_parent(g, scope, r.last())->0)
    }
    ||| {
        &&& is_walk(g, scope, name, r)
        &&& next_parent(g, scope, r.last()) is None
        &&& r.last() == "Object"@
    }
    ||| {
        &&& r.len() >= 2
        &&& is_walk(g, scope, name, r.drop_last())
        &&& next_parent(g, scope, r.drop_last().last()) is None
        &&& r.drop_last().last() != "Object"@
        &&& r.last() == "Object"@
    }
}

/// The ancestor chain of `name` (unique, see `lemma_ancestor_chain_unique`).
pub open spec fn ancestor_chain_spec(g: GlobalContext, scope: ScopeId, name: Seq<char>) -> Seq<
    Seq<char>,
> {
    choose|r: Seq<Seq<char>>| is_ancestor_chain(g, scope, name, r)
}

/// Every parent the built-in table lists, in table order.
pub open spec fn table_targets(t: Seq<(Seq<char>, Seq<Seq<char>>)>) -> Seq<Seq<char>>
    decreases t.len(),
{
    if t.len() == 0 {
        seq![]
    } else {
        t[0].1 + table_targets(t.drop_first())
    }
}

/// Every parent any declaration names.
pub open spec fn all_decl_parents(types: Seq<TypeDeclaration>) -> Seq<Seq<char>>
    decreases types.len(),
{
    if types.len() == 0 {
        seq![]
    } else {
        all_decl_parents(types.drop_last()) + decl_parents(types.last())
    }
}

/// Every name an ancestor walk from `name` can visit.
pub open spec fn walk_candidates(g: GlobalContext, name: Seq<char>) -> Seq<Seq<char>> {
    seq![name] + table_targets(builtin_table()) + all_decl_parents(g.types@)
}

proof fn lemma_table_targets(t: Seq<(Seq<char>, Seq<Seq<char>>)>, x: Seq<char>)
    ensures
        table_lookup(t, x).len() > 0 ==> table_targets(t).contains(table_lookup(t, x)[0]),
    decreases t.len(),
{
    if t.len() > 0 {
        lemma_table_targets(t.drop_first(), x);
        if t[0].0 == x {
            if t[0].1.len() > 0 {
                assert((t[0].1 + table_targets(t.drop_first()))[0] == t[0].1[0]);
            }
        } else if table_lookup(t, x).len() > 0 {
            let y = table_lookup(t, x)[0];
            let k = choose|k: int| 0 <= k < table_targets(t.drop_first()).len() && table_targets(
                t.drop_first(),
            )[k] == y;
            assert((t[0].1 + table_targets(t.drop_first()))[t[0].1.len() + k] == y);
        }
    }
}

proof fn lemma_all_decl_parents(types: Seq<TypeDeclaration>, id: int, x: Seq<char>)
    requires
        0 <= id < types.len(),
        decl_parents(types[id]).contains(x),
    ensures
        all_decl_parents(types).contains(x),
    decreases types.len(),
{
    let prefix = all_decl_parents(types.drop_last());
    if id == types.len() - 1 {
        let k = choose|k: int| 0 <= k < decl_parents(types.last()).len() && decl_parents(
            types.last(),
        )[k] == x;
        assert((prefix + decl_parents(types.last()))[prefix.len() + k] == x);
    } else {
        lemma_all_decl_parents(types.drop_last(), id, x);
        let k = choose|k: int| 0 <= k < prefix.len() && prefix[k] == x;
        assert((prefix + decl_parents(types.last()))[k] == x);
    }
}

/// Every step of a walk stays among the candidates.
proof fn lemma_next_in_candidates(g: GlobalContext, scope: ScopeId, name: Seq<char>, x: Seq<char>)
    requires
        g.wf(),
        scope.index() < g.scopes@.len(),
    ensures
        next_parent(g, scope, x) matches Some(p) ==> walk_candidates(g, name).contains(p),
{
    let c = walk_candidates(g, name);
    let tt = table_targets(builtin_table());
    let ad = all_decl_parents(g.types@);
    assert(c == seq![name] + tt + ad);
    if builtin_parents_spec(x).len() > 0 {
        lemma_table_targets(builtin_table(), x);
        let p = builtin_parents_spec(x)[0];
        let k = choose|k: int| 0 <= k < tt.len() && tt[k] == p;
        assert(c[1 + k] == p);
    } else if user_parents_spec(g, scope, x).len() > 0 {
        lemma_resolved_in_range(g, scope.index(), x);
        let id = resolve_spec(g.scopes@, scope.index(), x)->0;
        let p = user_parents_spec(g, scope, x)[0];
        assert(decl_parents(g.types@[id.0 as int])[0] == p);
        lemma_all_decl_parents(g.types@, id.0 as int, p);
        let k = choose|k: int| 0 <= k < ad.len() && ad[k] == p;
        assert(c[1 + tt.len() + k] == p);
    }
}

/// Extending a walk by the next parent of its end, not yet visited, gives
/// a walk.
proof fn lemma_walk_push(
    g: GlobalContext,
    scope: ScopeId,
    name: Seq<char>,
    before: Seq<Seq<char>>,
    cur: Seq<char>,
)
    requires
        before.len() == 0 ==> cur == name,
        before.len() > 0 ==> is_walk(g, scope, name, before) && next_parent(g, scope, before.last())
            == Some(cur),
        !before.contains(cur),
        before.no_duplicates(),
    ensures
        is_walk(g, scope, name, before.push(cur)),
        before.push(cur).last() == cur,
{
    let w = before.push(cur);
    assert forall|a: int, b: int| 0 <= a < b < w.len() implies w[a] != w[b] by {
        if b == w.len() - 1 {
            assert(before[a] == w[a]);
        }
    }
    assert forall|i: int| 0 <= i < w.len() - 1 implies next_parent(g, scope, #[trigger] w[i])
        == Some(w[i + 1]) by {
        if i < w.len() - 2 {
            assert(before[i] == w[i] && before[i + 1] == w[i + 1]);
        } else {
            assert(before.last() == w[i]);
        }
    }
}

/// Whether `v` holds a string equal to `x`.
pub fn contains_string(v: &Vec<String>, x: &String) -> (r: bool)
    ensures
        r == strings_view(v@).contains(x@),
{
    let mut i: usize = 0;
    while i < v.len()
        invariant
            i <= v@.len(),
            forall|k: int| 0 <= k < i ==> #[trigger] v@[k]@ != x@,
        decreases v@.len() - i,
    {
        if v[i] == *x {
            assert(strings_view(v@)[i as int] == x@);
            return true;
        }
        i = i + 1;
    }
    assert(!strings_view(v@).contains(x@)) by {
        if strings_view(v@).contains(x@) {
            let k = choose|k: int| 0 <= k < v@.len() && strings_view(v@)[k] == x@;
            assert(v@[k]@ != x@);
        }
    }
    false
}

/// The ancestor chain of a type: itself, its immediate parent, and so on,
/// through built-in parents first and declared `extends` otherwise, up to
/// `Object` (appended when the walk ends elsewhere). A repeated name ends
/// the walk.
pub fn ancestor_chain(name: &str, ctx: &CodegenContext<'_>, scope: ScopeId) -> (r: Vec<String>)
    requires
        ctx.gctx.wf(),
        scope.index() < ctx.gctx.scopes@.len(),
    ensures
        is_ancestor_chain(*ctx.gctx, scope, name@, strings_view(r@)),
        strings_view(r@) == ancestor_chain_spec(*ctx.gctx, scope, name@),
{
    let ghost g = *ctx.gctx;
    let ghost cand = walk_candidates(g, name@);
    let ghost bound = cand.to_set().len();
    let mut chain: Vec<String> = Vec::new();
    let mut current: String = name.to_string();
    assert(cand[0] == name@);
    loop
        invariant_except_break
            chain@.len() > 0 ==> is_walk(g, scope, name@, strings_view(chain@)) && next_parent(
                g,
                scope,
                strings_view(chain@).last(),
            ) == Some(current@),
            chain@.len() == 0 ==> current@ == name@,
            cand.contains(current@),
            strings_view(chain@).no_duplicates(),
            forall|k: int| 0 <= k < chain@.len() ==> cand.contains(#[trigger] strings_view(chain@)[k]),
            chain@.len() <= bound,
        invariant
            g == *ctx.gctx,
            g.wf(),
            scope.index() < g.scopes@.len(),
            cand == walk_candidates(g, name@),
            bound == cand.to_set().len(),
        ensures
            is_ancestor_chain(g, scope, name@, strings_view(chain@)),
        decreases bound - chain@.len(),
    {
        if contains_string(&chain, &current) {
            break;
        }
        let ghost before = strings_view(chain@);
        chain.push(current.clone());
        let ghost w = strings_view(chain@);
        assert(w =~= before.push(current@));
        proof {
            lemma_walk_push(g, scope, name@, before, current@);
            assert forall|k: int| 0 <= k < w.len() implies cand.contains(#[trigger] w[k]) by {
                if k < before.len() {
                    assert(before[k] == w[k]);
                }
            }
            lemma_distinct_bound(w, cand);
            lemma_next_in_candidates(g, scope, name@, current@);
        }
        let parents = builtin_parents(current.as_str());
        if parents.len() > 0 {
            assert(parents@.map_values(|s: &str| s@)[0] == parents@[0]@);
            current = parents[0].to_string();
            continue;
        }
        let user = user_parents(current.as_str(), ctx, scope);
        if user.len() > 0 {
            assert(strings_view(user@)[0] == user@[0]@);
            current = user[0].clone();
            continue;
        }
        if !str_eq(current.as_str(), "Object") {
            chain.push("Object".to_string());
            assert(strings_view(chain@).drop_last() =~= w);
        }
        break;
    }
    proof {
        lemma_ancestor_chain_is_spec(g, scope, name@, strings_view(chain@));
    }
    chain
}


/// Two walks from the same name agree wherever both are defined.
proof fn lemma_walks_agree(
    g: GlobalContext,
    scope: ScopeId,
    name: Seq<char>,
    w1: Seq<Seq<char>>,
    w2: Seq<Seq<char>>,
    i: int,
)
    requires
        is_walk(g, scope, name, w1),
        is_walk(g, scope, name, w2),
        0 <= i < w1.len(),
        i < w2.len(),
    ensures
        w1[i] == w2[i],
    decreases i,
{
    if i > 0 {
        lemma_walks_agree(g, scope, name, w1, w2, i - 1);
        assert(next_parent(g, scope, w1[i - 1]) == Some(w1[i]));
        assert(next_parent(g, scope, w2[i - 1]) == Some(w2[i]));
    }
}

/// The walk can go no further from its end.
pub open spec fn walk_stops(g: GlobalContext, scope: ScopeId, w: Seq<Seq<char>>) -> bool {
    match next_parent(g, scope, w.last()) {
        Some(p) => w.contains(p),
        None => true,
    }
}

/// A walk that stops is at least as long as any walk from the same name.
proof fn lemma_stopped_walk_longest(
    g: GlobalContext,
    scope: ScopeId,
    name: Seq<char>,
    w1: Seq<Seq<char>>,
    w2: Seq<Seq<char>>,
)
    requires
        is_walk(g, scope, name, w1),
        is_walk(g, scope, name, w2),
        walk_stops(g, scope, w1),
    ensures
        w2.len() <= w1.len(),
{
    let n = w1.len() as int;
    if w2.len() > n {
        lemma_walks_agree(g, scope, name, w1, w2, n - 1);
        assert(next_parent(g, scope, w2[n - 1]) == Some(w2[n]));
        let p = w2[n];
        assert(w1.contains(p));
        let k = choose|k: int| 0 <= k < n && w1[k] == p;
        lemma_walks_agree(g, scope, name, w1, w2, k);
        assert(w2[k] == w2[n]);
    }
}

/// The walk part of an ancestor chain.
pub open spec fn chain_walk(g: GlobalContext, scope: ScopeId, name: Seq<char>, r: Seq<Seq<char>>) -> Seq<
    Seq<char>,
> {
    if is_walk(g, scope, name, r) && (next_parent(g, scope, r.last()) is Some || r.last()
        == "Object"@) {
        r
    } else {
        r.drop_last()
    }
}

/// The ancestor chain of a name is unique.
pub proof fn lemma_ancestor_chain_unique(
    g: GlobalContext,
    scope: ScopeId,
    name: Seq<char>,
    r1: Seq<Seq<char>>,
    r2: Seq<Seq<char>>,
)
    requires
        is_ancestor_chain(g, scope, name, r1),
        is_ancestor_chain(g, scope, name, r2),
    ensures
        r1 == r2,
{
    let w1 = chain_walk(g, scope, name, r1);
    let w2 = chain_walk(g, scope, name, r2);
    assert(is_walk(g, scope, name, w1) && walk_stops(g, scope, w1));
    assert(is_walk(g, scope, name, w2) && walk_stops(g, scope, w2));
    lemma_stopped_walk_longest(g, scope, name, w1, w2);
    lemma_stopped_walk_longest(g, scope, name, w2, w1);
    assert forall|i: int| 0 <= i < w1.len() implies w1[i] == w2[i] by {
        lemma_walks_agree(g, scope, name, w1, w2, i);
    }
    assert(w1 =~= w2);
    if r1 != w1 {
        assert(r1 =~= w1.push("Object"@));
    }
    if r2 != w2 {
        assert(r2 =~= w2.push("Object"@));
    }
}

/// The chain `ancestor_chain` returns is `ancestor_chain_spec`.
pub proof fn lemma_ancestor_chain_is_spec(
    g: GlobalContext,
    scope: ScopeId,
    name: Seq<char>,
    r: Seq<Seq<char>>,
)
    requires
        is_ancestor_chain(g, scope, name, r),
    ensures
        ancestor_chain_spec(g, scope, name) == r,
{
    lemma_ancestor_chain_unique(g, scope, name, r, ancestor_chain_spec(g, scope, name));
}


/// The first name of `c0` that every chain of `others` contains.
pub open spec fn first_common(c0: Seq<Seq<char>>, others: Seq<Seq<Seq<char>>>) -> Option<Seq<char>>
    decreases c0.len(),
{
    if c0.len() == 0 {
        None
    } else if forall|j: int| 0 <= j < others.len() ==> #[trigger] others[j].contains(c0[0]) {
        Some(c0[0])
    } else {
        first_common(c0.drop_first(), others)
    }
}

/// The most specific common ancestor of `names`: none for no names, the
/// name itself for one, otherwise the first entry of the first name's
/// ancestor chain that every other name's chain contains.
pub open spec fn lub_spec(g: GlobalContext, scope: ScopeId, names: Seq<Seq<char>>) -> Option<
    Seq<char>,
> {
    if names.len() == 0 {
        None
    } else if names.len() == 1 {
        Some(names[0])
    } else {
        first_common(
            ancestor_chain_spec(g, scope, names[0]),
            names.drop_first().map_values(|n: Seq<char>| ancestor_chain_spec(g, scope, n)),
        )
    }
}

/// Compute the most specific common ancestor of `names` (see `lub_spec`).
/// `Some("Object")` comes back when `Object` is the deepest shared
/// ancestor; callers decide whether to widen that further.
pub fn lub_types(names: &[&str], ctx: &CodegenContext<'_>, scope: ScopeId) -> (r: Option<String>)
    requires
        ctx.gctx.wf(),
        scope.index() < ctx.gctx.scopes@.len(),
    ensures
        match r {
            Some(x) => lub_spec(*ctx.gctx, scope, names@.map_values(|s: &str| s@)) == Some(x@),
            None => lub_spec(*ctx.gctx, scope, names@.map_values(|s: &str| s@)) is None,
        },
{
    let ghost g = *ctx.gctx;
    let ghost nv = names@.map_values(|s: &str| s@);
    if names.len() == 0 {
        return None;
    }
    if names.len() == 1 {
        return Some(names[0].to_string());
    }
    let mut chains: Vec<Vec<String>> = Vec::new();
    let mut i: usize = 0;
    while i < names.len()
        invariant
            g == *ctx.gctx,
            g.wf(),
            scope.index() < g.scopes@.len(),
            nv == names@.map_values(|s: &str| s@),
            i <= names@.len(),
            chains@.len() == i,
            forall|k: int|
                0 <= k < i ==> strings_view(#[trigger] chains@[k]@) == ancestor_chain_spec(
                    g,
                    scope,
                    nv[k],
                ),
        decreases names@.len() - i,
    {
        chains.push(ancestor_chain(names[i], ctx, scope));
        i = i + 1;
    }
    let ghost others = nv.drop_first().map_values(|n: Seq<char>| ancestor_chain_spec(g, scope, n));
    let first_chain = &chains[0];
    let ghost c0 = strings_view(first_chain@);
    assert(c0 == ancestor_chain_spec(g, scope, nv[0]));
    assert(c0.skip(0) =~= c0);
    let mut a: usize = 0;
    while a < first_chain.len()
        invariant
            g == *ctx.gctx,
            nv == names@.map_values(|s: &str| s@),
            nv.len() >= 2,
            chains@.len() == nv.len(),
            forall|k: int|
                0 <= k < nv.len() ==> strings_view(#[trigger] chains@[k]@) == ancestor_chain_spec(
                    g,
                    scope,
                    nv[k],
                ),
            others == nv.drop_first().map_values(|n: Seq<char>| ancestor_chain_spec(g, scope, n)),
            first_chain == &chains@[0],
            c0 == strings_view(first_chain@),
            a <= first_chain@.len(),
            first_common(c0, others) == first_common(c0.skip(a as int), others),
        decreases first_chain@.len() - a,
    {
        let ancestor = &first_chain[a];
        assert(c0.skip(a as int)[0] == ancestor@);
        assert(c0.skip(a as int).drop_first() =~= c0.skip(a + 1));
        let mut all = true;
        let mut j: usize = 1;
        while j < chains.len()
            invariant
                nv.len() >= 2,
                chains@.len() == nv.len(),
                forall|k: int|
                    0 <= k < nv.len() ==> strings_view(#[trigger] chains@[k]@) == ancestor_chain_spec(
                        g,
                        scope,
                        nv[k],
                    ),
                others == nv.drop_first().map_values(
                    |n: Seq<char>| ancestor_chain_spec(g, scope, n),
                ),
                1 <= j <= chains@.len(),
                all == forall|m: int| 0 <= m < j - 1 ==> #[trigger] others[m].contains(ancestor@),
            decreases chains@.len() - j,
        {
            assert(others[j - 1] == strings_view(chains@[j as int]@));
            if !contains_string(&chains[j], ancestor) {
                all = false;
            }
            j = j + 1;
        }
        if all {
            assert(others.len() == nv.len() - 1);
            assert(forall|m: int|
                0 <= m < others.len() ==> #[trigger] others[m].contains(c0.skip(a as int)[0]));
            assert(first_common(c0.skip(a as int), others) == Some(ancestor@));
            assert(lub_spec(g, scope, nv) == first_common(c0, others));
            return Some(ancestor.clone());
        }
        a = a + 1;
    }
    assert(c0.skip(a as int).len() == 0);
    None
}


// ---------------------------------------------------------------------
// Laws
// ---------------------------------------------------------------------

/// The walk `w` extends to an ancestor chain of `name`.
proof fn lemma_chain_from(g: GlobalContext, scope: ScopeId, name: Seq<char>, w: Seq<Seq<char>>) -> (r: Seq<
    Seq<char>,
>)
    requires
        g.wf(),
        scope.index() < g.scopes@.len(),
        is_walk(g, scope, name, w),
        forall|k: int| 0 <= k < w.len() ==> walk_candidates(g, name).contains(#[trigger] w[k]),
    ensures
        is_ancestor_chain(g, scope, name, r),
    decreases walk_candidates(g, name).to_set().len() - w.len(),
{
    let cand = walk_candidates(g, name);
    lemma_distinct_bound(w, cand);
    let x = w.last();
    match next_parent(g, scope, x) {
        Some(p) => {
            if w.contains(p) {
                w
            } else {
                lemma_next_in_candidates(g, scope, name, x);
                lemma_walk_push(g, scope, name, w, p);
                let w2 = w.push(p);
                assert forall|k: int| 0 <= k < w2.len() implies cand.contains(#[trigger] w2[k]) by {
                    if k < w.len() {
                        assert(w[k] == w2[k]);
                    }
                }
                lemma_distinct_bound(w2, cand);
                lemma_chain_from(g, scope, name, w2)
            }
        },
        None => {
            if x == "Object"@ {
                w
            } else {
                let r = w.push("Object"@);
                assert(r.drop_last() =~= w);
                r
            }
        },
    }
}

/// Every name has its ancestor chain.
proof fn lemma_chain_exists(g: GlobalContext, scope: ScopeId, name: Seq<char>)
    requires
        g.wf(),
        scope.index() < g.scopes@.len(),
    ensures
        is_ancestor_chain(g, scope, name, ancestor_chain_spec(g, scope, name)),
{
    let cand = walk_candidates(g, name);
    assert(cand[0] == name);
    lemma_walk_push(g, scope, name, Seq::<Seq<char>>::empty(), name);
    let w = Seq::<Seq<char>>::empty().push(name);
    assert forall|k: int| 0 <= k < w.len() implies cand.contains(#[trigger] w[k]) by {
        assert(w[k] == cand[0]);
    }
    let r = lemma_chain_from(g, scope, name, w);
    lemma_ancestor_chain_is_spec(g, scope, name, r);
}

/// The ancestor chain of a name starts at the name itself, and ends at
/// `Object` unless the walk met a name it had already visited.
pub proof fn law_chain_shape(g: GlobalContext, scope: ScopeId, name: Seq<char>)
    requires
        g.wf(),
        scope.index() < g.scopes@.len(),
    ensures
        ancestor_chain_spec(g, scope, name).len() > 0,
        ancestor_chain_spec(g, scope, name)[0] == name,
        ancestor_chain_spec(g, scope, name).last() == "Object"@ || ({
            let r = ancestor_chain_spec(g, scope, name);
            next_parent(g, scope, r.last()) matches Some(p) && r.contains(p)
        }),
{
    lemma_chain_exists(g, scope, name);
    let r = ancestor_chain_spec(g, scope, name);
    if !is_walk(g, scope, name, r) {
        assert(r.drop_last()[0] == r[0]);
    }
}

/// Every chain of `others` contains `x`.
pub open spec fn on_all(others: Seq<Seq<Seq<char>>>, x: Seq<char>) -> bool {
    forall|j: int| 0 <= j < others.len() ==> #[trigger] others[j].contains(x)
}

proof fn lemma_first_common_found(c0: Seq<Seq<char>>, others: Seq<Seq<Seq<char>>>)
    ensures
        match first_common(c0, others) {
            Some(x) => c0.contains(x) && on_all(others, x),
            None => forall|k: int| 0 <= k < c0.len() ==> !on_all(others, #[trigger] c0[k]),
        },
    decreases c0.len(),
{
    if c0.len() > 0 {
        lemma_first_common_found(c0.drop_first(), others);
        if on_all(others, c0[0]) {
            assert(first_common(c0, others) == Some(c0[0]));
            assert(c0.contains(c0[0]));
        } else {
            assert(first_common(c0, others) == first_common(c0.drop_first(), others));
            match first_common(c0.drop_first(), others) {
                Some(x) => {
                    let k = choose|k: int| 0 <= k < c0.drop_first().len() && c0.drop_first()[k] == x;
                    assert(c0[k + 1] == x);
                    assert(c0.contains(x));
                },
                None => {
                    assert forall|k: int| 0 <= k < c0.len() implies !on_all(others, #[trigger] c0[k]) by {
                        if k > 0 {
                            assert(c0[k] == c0.drop_first()[k - 1]);
                        }
                    }
                },
            }
        }
    }
}

/// The least upper bound of two or more names is an ancestor of each of
/// them: it is on every name's ancestor chain. `None` comes back only
/// when no entry of the first name's chain is on every other chain.
pub proof fn law_lub_is_common_ancestor(g: GlobalContext, scope: ScopeId, names: Seq<Seq<char>>)
    requires
        names.len() >= 2,
    ensures
        match lub_spec(g, scope, names) {
            Some(x) => forall|i: int|
                0 <= i < names.len() ==> #[trigger] ancestor_chain_spec(g, scope, names[i]).contains(x),
            None => forall|k: int|
                0 <= k < ancestor_chain_spec(g, scope, names[0]).len() ==> !on_all(
                    names.drop_first().map_values(|n: Seq<char>| ancestor_chain_spec(g, scope, n)),
                    #[trigger] ancestor_chain_spec(g, scope, names[0])[k],
                ),
        },
{
    let others = names.drop_first().map_values(|n: Seq<char>| ancestor_chain_spec(g, scope, n));
    lemma_first_common_found(ancestor_chain_spec(g, scope, names[0]), others);
    match lub_spec(g, scope, names) {
        Some(x) => {
            assert forall|i: int| 0 <= i < names.len() implies #[trigger] ancestor_chain_spec(
                g,
                scope,
                names[i],
            ).contains(x) by {
                if i > 0 {
                    assert(others[i - 1] == ancestor_chain_spec(g, scope, names[i]));
                }
            }
        },
        None => {},
    }
}

/// The least upper bound of copies of one name is that name.
pub proof fn law_lub_of_one_name(g: GlobalContext, scope: ScopeId, names: Seq<Seq<char>>)
    requires
        g.wf(),
        scope.index() < g.scopes@.len(),
        names.len() >= 1,
        forall|i: int| 0 <= i < names.len() ==> #[trigger] names[i] == names[0],
    ensures
        lub_spec(g, scope, names) == Some(names[0]),
{
    if names.len() >= 2 {
        law_chain_shape(g, scope, names[0]);
        let c0 = ancestor_chain_spec(g, scope, names[0]);
        let others = names.drop_first().map_values(|n: Seq<char>| ancestor_chain_spec(g, scope, n));
        assert forall|j: int| 0 <= j < others.len() implies #[trigger] others[j].contains(c0[0]) by {
            assert(names[j + 1] == names[0]);
            assert(others[j] == c0);
            assert(c0.contains(c0[0]));
        }
    }
}


// ---------------------------------------------------------------------
// Order and repetition do not matter to the least upper bound
// ---------------------------------------------------------------------

/// The name after `x` on an ancestor chain: its next parent, else
/// `Object`.
#[verifier::opaque]
pub open spec fn chain_succ(g: GlobalContext, scope: ScopeId, x: Seq<char>) -> Seq<char> {
    match next_parent(g, scope, x) {
        Some(p) => p,
        None => "Object"@,
    }
}

/// `s` climbs by `chain_succ`, repeats no name and ends at `Object`.
pub open spec fn climbs_to_object(g: GlobalContext, scope: ScopeId, s: Seq<Seq<char>>) -> bool {
    &&& s.len() > 0
    &&& s.no_duplicates()
    &&& s.last() == "Object"@
    &&& forall|i: int|
        0 <= i < s.len() - 1 ==> #[trigger] chain_succ(g, scope, s[i]) == s[i + 1]
}

/// A chain that ends at `Object`, where `Object` has no parent, climbs to
/// `Object`.
proof fn lemma_chain_climbs(g: GlobalContext, scope: ScopeId, n: Seq<char>)
    requires
        g.wf(),
        scope.index() < g.scopes@.len(),
        next_parent(g, scope, "Object"@) is None,
        ancestor_chain_spec(g, scope, n).last() == "Object"@,
    ensures
        climbs_to_object(g, scope, ancestor_chain_spec(g, scope, n)),
        ancestor_chain_spec(g, scope, n)[0] == n,
{
    lemma_chain_exists(g, scope, n);
    law_chain_shape(g, scope, n);
    reveal(chain_succ);
    let r = ancestor_chain_spec(g, scope, n);
    if is_walk(g, scope, n, r) {
        assert forall|i: int| 0 <= i < r.len() - 1 implies #[trigger] chain_succ(g, scope, r[i])
            == r[i + 1] by {
            assert(next_parent(g, scope, r[i]) == Some(r[i + 1]));
        }
    } else {
        let w = r.drop_last();
        assert(is_walk(g, scope, n, w));
        assert forall|k: int| 0 <= k < w.len() implies #[trigger] w[k] != "Object"@ by {
            if k < w.len() - 1 {
                assert(next_parent(g, scope, w[k]) == Some(w[k + 1]));
            }
        }
        assert forall|i: int, j: int| 0 <= i < r.len() && 0 <= j < r.len() && i != j implies r[i]
            != r[j] by {
            if i == r.len() - 1 {
                assert(r[j] == w[j]);
            } else if j == r.len() - 1 {
                assert(r[i] == w[i]);
            } else {
                assert(r[i] == w[i] && r[j] == w[j]);
            }
        }
        assert forall|i: int| 0 <= i < r.len() - 1 implies #[trigger] chain_succ(g, scope, r[i])
            == r[i + 1] by {
            assert(r[i] == w[i]);
            if i < w.len() - 1 {
                assert(next_parent(g, scope, w[i]) == Some(w[i + 1]));
            }
        }
    }
}

proof fn lemma_climbs_agree_at(
    g: GlobalContext,
    scope: ScopeId,
    s: Seq<Seq<char>>,
    t: Seq<Seq<char>>,
    i: int,
)
    requires
        climbs_to_object(g, scope, s),
        climbs_to_object(g, scope, t),
        s[0] == t[0],
        0 <= i < s.len(),
        i < t.len(),
    ensures
        s[i] == t[i],
    decreases i,
{
    if i > 0 {
        lemma_climbs_agree_at(g, scope, s, t, i - 1);
        assert(chain_succ(g, scope, s[i - 1]) == s[i]);
        assert(chain_succ(g, scope, t[i - 1]) == t[i]);
    }
}

/// Two climbs from the same name are the same.
proof fn lemma_climbs_agree(g: GlobalContext, scope: ScopeId, s: Seq<Seq<char>>, t: Seq<Seq<char>>)
    requires
        climbs_to_object(g, scope, s),
        climbs_to_object(g, scope, t),
        s[0] == t[0],
    ensures
        s == t,
{
    if s.len() < t.len() {
        let n = s.len() - 1;
        lemma_climbs_agree_at(g, scope, s, t, n);
        assert(t[n] == t[t.len() - 1]);
    }
    if t.len() < s.len() {
        let n = t.len() - 1;
        lemma_climbs_agree_at(g, scope, s, t, n);
        assert(s[n] == s[s.len() - 1]);
    }
    assert forall|i: int| 0 <= i < s.len() implies s[i] == t[i] by {
        lemma_climbs_agree_at(g, scope, s, t, i);
    }
    assert(s =~= t);
}

/// Two climbs that meet go on together from where they meet.
proof fn lemma_climbs_suffix(
    g: GlobalContext,
    scope: ScopeId,
    s: Seq<Seq<char>>,
    t: Seq<Seq<char>>,
    i: int,
    j: int,
)
    requires
        climbs_to_object(g, scope, s),
        climbs_to_object(g, scope, t),
        0 <= i < s.len(),
        0 <= j < t.len(),
        s[i] == t[j],
    ensures
        s.skip(i) == t.skip(j),
{
    let s2 = s.skip(i);
    let t2 = t.skip(j);
    assert(climbs_to_object(g, scope, s2)) by {
        assert forall|k: int| 0 <= k < s2.len() - 1 implies #[trigger] chain_succ(g, scope, s2[k])
            == s2[k + 1] by {
            assert(s2[k] == s[k + i] && s2[k + 1] == s[k + 1 + i]);
            assert(chain_succ(g, scope, s[k + i]) == s[k + i + 1]);
        }
        assert forall|a: int, b: int| 0 <= a < s2.len() && 0 <= b < s2.len() && a != b implies s2[a]
            != s2[b] by {
            assert(s2[a] == s[a + i] && s2[b] == s[b + i]);
        }
    }
    assert(climbs_to_object(g, scope, t2)) by {
        assert forall|k: int| 0 <= k < t2.len() - 1 implies #[trigger] chain_succ(g, scope, t2[k])
            == t2[k + 1] by {
            assert(t2[k] == t[k + j] && t2[k + 1] == t[k + 1 + j]);
            assert(chain_succ(g, scope, t[k + j]) == t[k + j + 1]);
        }
        assert forall|a: int, b: int| 0 <= a < t2.len() && 0 <= b < t2.len() && a != b implies t2[a]
            != t2[b] by {
            assert(t2[a] == t[a + j] && t2[b] == t[b + j]);
        }
    }
    lemma_climbs_agree(g, scope, s2, t2);
}

/// `first_common` depends on the other chains only through which names
/// lie on all of them.
proof fn lemma_first_common_congruent(
    c0: Seq<Seq<char>>,
    o1: Seq<Seq<Seq<char>>>,
    o2: Seq<Seq<Seq<char>>>,
)
    requires
        forall|k: int| 0 <= k < c0.len() ==> on_all(o1, #[trigger] c0[k]) == on_all(o2, c0[k]),
    ensures
        first_common(c0, o1) == first_common(c0, o2),
    decreases c0.len(),
{
    if c0.len() > 0 {
        assert(on_all(o1, c0[0]) == on_all(o2, c0[0]));
        assert forall|k: int| 0 <= k < c0.drop_first().len() implies on_all(
            o1,
            #[trigger] c0.drop_first()[k],
        ) == on_all(o2, c0.drop_first()[k]) by {
            assert(c0.drop_first()[k] == c0[k + 1]);
        }
        lemma_first_common_congruent(c0.drop_first(), o1, o2);
    }
}

/// Where some name of `c0` lies on all chains, `first_common` gives the
/// first such name.
proof fn lemma_first_common_at(c0: Seq<Seq<char>>, o: Seq<Seq<Seq<char>>>, k: int) -> (m: int)
    requires
        0 <= k < c0.len(),
        on_all(o, c0[k]),
    ensures
        0 <= m <= k,
        first_common(c0, o) == Some(c0[m]),
        on_all(o, c0[m]),
        forall|j: int| 0 <= j < m ==> !on_all(o, #[trigger] c0[j]),
    decreases c0.len(),
{
    if on_all(o, c0[0]) {
        0
    } else {
        assert(c0.drop_first()[k - 1] == c0[k]);
        let m1 = lemma_first_common_at(c0.drop_first(), o, k - 1);
        assert forall|j: int| 0 <= j < m1 + 1 implies !on_all(o, #[trigger] c0[j]) by {
            if j > 0 {
                assert(c0[j] == c0.drop_first()[j - 1]);
            }
        }
        assert(c0[m1 + 1] == c0.drop_first()[m1]);
        m1 + 1
    }
}

/// The ancestor chains of `names`, in order.
pub open spec fn chains_of(g: GlobalContext, scope: ScopeId, names: Seq<Seq<char>>) -> Seq<
    Seq<Seq<char>>,
> {
    names.map_values(|n: Seq<char>| ancestor_chain_spec(g, scope, n))
}

/// Two climbing chains that are among `all`, where `Object` lies on all
/// of `all`, give the same first common name.
proof fn lemma_first_common_pair(
    g: GlobalContext,
    scope: ScopeId,
    c1: Seq<Seq<char>>,
    c2: Seq<Seq<char>>,
    all: Seq<Seq<Seq<char>>>,
    a: int,
    b: int,
)
    requires
        climbs_to_object(g, scope, c1),
        climbs_to_object(g, scope, c2),
        on_all(all, "Object"@),
        0 <= a < all.len(),
        0 <= b < all.len(),
        all[a] == c1,
        all[b] == c2,
    ensures
        first_common(c1, all) == first_common(c2, all),
{
    assert(c1[c1.len() - 1] == "Object"@);
    assert(c2[c2.len() - 1] == "Object"@);
    let m1 = lemma_first_common_at(c1, all, c1.len() - 1);
    let m2 = lemma_first_common_at(c2, all, c2.len() - 1);
    let x1 = c1[m1];
    let x2 = c2[m2];
    assert(c2.contains(x1));
    assert(c1.contains(x2));
    let j1 = choose|j: int| 0 <= j < c2.len() && c2[j] == x1;
    let p = choose|j: int| 0 <= j < c1.len() && c1[j] == x2;
    if p < m1 {
        assert(!on_all(all, c1[p]));
    }
    if j1 < m2 {
        assert(!on_all(all, c2[j1]));
    }
    assert(on_all(all, c1[p]));
    assert(on_all(all, c2[j1]));
    assert(p >= m1);
    assert(j1 >= m2);
    lemma_climbs_suffix(g, scope, c1, c2, m1, j1);
    assert(c1.skip(m1).len() == c2.skip(j1).len());
    assert(c1.skip(m1)[p - m1] == c1[p]);
    assert(c2.skip(j1)[p - m1] == c2[j1 + p - m1]);
    assert(c2[j1 + p - m1] == c2[m2]);
    assert(j1 + p - m1 == m2);
}

/// Over acyclic chains, the first name of any one chain that lies on all
/// of them is the same whichever chain it is read from.
proof fn lemma_first_common_same(
    g: GlobalContext,
    scope: ScopeId,
    names: Seq<Seq<char>>,
    a: int,
    b: int,
)
    requires
        g.wf(),
        scope.index() < g.scopes@.len(),
        next_parent(g, scope, "Object"@) is None,
        forall|i: int|
            0 <= i < names.len() ==> #[trigger] ancestor_chain_spec(g, scope, names[i]).last()
                == "Object"@,
        0 <= a < names.len(),
        0 <= b < names.len(),
    ensures
        first_common(ancestor_chain_spec(g, scope, names[a]), chains_of(g, scope, names))
            == first_common(ancestor_chain_spec(g, scope, names[b]), chains_of(g, scope, names)),
{
    let all = chains_of(g, scope, names);
    assert(on_all(all, "Object"@)) by {
        assert forall|j: int| 0 <= j < all.len() implies #[trigger] all[j].contains("Object"@) by {
            assert(all[j] == ancestor_chain_spec(g, scope, names[j]));
            assert(ancestor_chain_spec(g, scope, names[j]).last() == "Object"@);
            law_chain_shape(g, scope, names[j]);
            assert(all[j][all[j].len() - 1] == "Object"@);
        }
    }
    assert(ancestor_chain_spec(g, scope, names[a]).last() == "Object"@);
    assert(ancestor_chain_spec(g, scope, names[b]).last() == "Object"@);
    lemma_chain_climbs(g, scope, names[a]);
    lemma_chain_climbs(g, scope, names[b]);
    lemma_first_common_pair(
        g,
        scope,
        ancestor_chain_spec(g, scope, names[a]),
        ancestor_chain_spec(g, scope, names[b]),
        all,
        a,
        b,
    );
}

/// The least upper bound depends only on which names are given: their
/// order and repetitions do not matter, provided the ancestor chains
/// involved have no cycle (each ends at `Object`, and `Object` has no
/// parent).
pub proof fn law_lub_ignores_order_and_repeats(
    g: GlobalContext,
    scope: ScopeId,
    names: Seq<Seq<char>>,
    perm: Seq<Seq<char>>,
)
    requires
        g.wf(),
        scope.index() < g.scopes@.len(),
        names.len() > 0,
        perm.len() > 0,
        forall|x: Seq<char>| names.contains(x) <==> perm.contains(x),
        next_parent(g, scope, "Object"@) is None,
        forall|i: int|
            0 <= i < names.len() ==> #[trigger] ancestor_chain_spec(g, scope, names[i]).last()
                == "Object"@,
    ensures
        lub_spec(g, scope, names) == lub_spec(g, scope, perm),
{
    let all = chains_of(g, scope, names);
    let pall = chains_of(g, scope, perm);
    // Lying on all chains of `names` is lying on all chains of `perm`.
    assert forall|x: Seq<char>| on_all(all, x) == on_all(pall, x) by {
        if on_all(all, x) {
            assert forall|j: int| 0 <= j < pall.len() implies #[trigger] pall[j].contains(x) by {
                assert(perm.contains(perm[j]));
                let i = choose|i: int| 0 <= i < names.len() && names[i] == perm[j];
                assert(all[i].contains(x));
            }
        }
        if on_all(pall, x) {
            assert forall|j: int| 0 <= j < all.len() implies #[trigger] all[j].contains(x) by {
                assert(names.contains(names[j]));
                let i = choose|i: int| 0 <= i < perm.len() && perm[i] == names[j];
                assert(pall[i].contains(x));
            }
        }
    }
    // Each side is the first common name of its first chain over all chains.
    assert(lub_spec(g, scope, names) == first_common(ancestor_chain_spec(g, scope, names[0]), all))
        by {
        lemma_lub_as_first_common(g, scope, names);
    }
    assert(lub_spec(g, scope, perm) == first_common(ancestor_chain_spec(g, scope, perm[0]), pall))
        by {
        lemma_lub_as_first_common(g, scope, perm);
    }
    let c = ancestor_chain_spec(g, scope, perm[0]);
    assert forall|k: int| 0 <= k < c.len() implies on_all(pall, #[trigger] c[k]) == on_all(
        all,
        c[k],
    ) by {}
    lemma_first_common_congruent(c, pall, all);
    assert(perm.contains(perm[0]));
    let b = choose|i: int| 0 <= i < names.len() && names[i] == perm[0];
    lemma_first_common_same(g, scope, names, 0, b);
}

/// The least upper bound of names is the first name of the first chain
/// that lies on all their chains.
proof fn lemma_lub_as_first_common(g: GlobalContext, scope: ScopeId, names: Seq<Seq<char>>)
    requires
        g.wf(),
        scope.index() < g.scopes@.len(),
        names.len() > 0,
    ensures
        lub_spec(g, scope, names) == first_common(
            ancestor_chain_spec(g, scope, names[0]),
            chains_of(g, scope, names),
        ),
{
    let all = chains_of(g, scope, names);
    let c0 = ancestor_chain_spec(g, scope, names[0]);
    law_chain_shape(g, scope, names[0]);
    if names.len() == 1 {
        assert(on_all(all, c0[0])) by {
            assert forall|j: int| 0 <= j < all.len() implies #[trigger] all[j].contains(c0[0]) by {
                assert(all[j] == c0);
                assert(c0.contains(c0[0]));
            }
        }
    } else {
        let rest = names.drop_first().map_values(|n: Seq<char>| ancestor_chain_spec(g, scope, n));
        assert forall|k: int| 0 <= k < c0.len() implies on_all(rest, #[trigger] c0[k]) == on_all(
            all,
            c0[k],
        ) by {
            if on_all(rest, c0[k]) {
                assert forall|j: int| 0 <= j < all.len() implies #[trigger] all[j].contains(c0[k]) by {
                    if j == 0 {
                        assert(all[0] == c0);
                        assert(c0.contains(c0[k]));
                    } else {
                        assert(all[j] == rest[j - 1]);
                    }
                }
            }
            if on_all(all, c0[k]) {
                assert forall|j: int| 0 <= j < rest.len() implies #[trigger] rest[j].contains(c0[k]) by {
                    assert(all[j + 1] == rest[j]);
                }
            }
        }
        lemma_first_common_congruent(c0, rest, all);
    }
}


// ---------------------------------------------------------------------
// Built-in error classes and declared `extends`
// ---------------------------------------------------------------------

/// The first entry for `name` decides what the table lookup gives.
proof fn lemma_table_lookup_at(t: Seq<(Seq<char>, Seq<Seq<char>>)>, name: Seq<char>, k: int)
    requires
        0 <= k < t.len(),
        t[k].0 == name,
        forall|j: int| 0 <= j < k ==> #[trigger] t[j].0 != name,
    ensures
        table_lookup(t, name) == t[k].1,
    decreases k,
{
    if k > 0 {
        assert forall|j: int| 0 <= j < k - 1 implies #[trigger] t.drop_first()[j].0 != name by {
            assert(t.drop_first()[j] == t[j + 1]);
        }
        lemma_table_lookup_at(t.drop_first(), name, k - 1);
    }
}

/// The JS error classes the built-in table knows.
pub open spec fn is_builtin_error_subclass(e: Seq<char>) -> bool {
    e == "TypeError"@ || e == "RangeError"@ || e == "SyntaxError"@ || e == "ReferenceError"@ || e
        == "EvalError"@ || e == "URIError"@ || e == "AggregateError"@ || e == "DOMException"@
}

/// Every built-in error class has `Error` as its one parent, and `Error`
/// has `Object`.
pub proof fn law_builtin_error_parents(e: Seq<char>)
    requires
        is_builtin_error_subclass(e),
    ensures
        builtin_parents_spec(e) == seq!["Error"@],
        builtin_parents_spec("Error"@) == seq!["Object"@],
{
    reveal_with_fuel(table_lookup, 30);
    reveal_strlit("TypeError");
    reveal_strlit("RangeError");
    reveal_strlit("SyntaxError");
    reveal_strlit("ReferenceError");
    reveal_strlit("EvalError");
    reveal_strlit("URIError");
    reveal_strlit("AggregateError");
    reveal_strlit("DOMException");
    reveal_strlit("Int8Array");
    reveal_strlit("Uint8Array");
    reveal_strlit("Uint8ClampedArray");
    reveal_strlit("Int16Array");
    reveal_strlit("Uint16Array");
    reveal_strlit("Int32Array");
    reveal_strlit("Uint32Array");
    reveal_strlit("Float32Array");
    reveal_strlit("Float64Array");
    reveal_strlit("BigInt64Array");
    reveal_strlit("BigUint64Array");
    reveal_strlit("Array");
    reveal_strlit("Map");
    reveal_strlit("Set");
    reveal_strlit("WeakMap");
    reveal_strlit("WeakSet");
    reveal_strlit("Date");
    reveal_strlit("RegExp");
    reveal_strlit("Promise");
    reveal_strlit("Error");
    reveal_strlit("Object");
    let t = builtin_table();
    assert("Error"@[0] != "Array"@[0]);
    assert(t[0].0 == "TypeError"@);
    assert(t[0].0.len() == 9);
    assert(t[1].0 == "RangeError"@);
    assert(t[1].0.len() == 10);
    assert(t[2].0 == "SyntaxError"@);
    assert(t[2].0.len() == 11);
    assert(t[3].0 == "ReferenceError"@);
    assert(t[3].0.len() == 14);
    assert(t[4].0 == "EvalError"@);
    assert(t[4].0.len() == 9);
    assert(t[5].0 == "URIError"@);
    assert(t[5].0.len() == 8);
    assert(t[6].0 == "AggregateError"@);
    assert(t[6].0.len() == 14);
    assert(t[7].0 == "DOMException"@);
    assert(t[7].0.len() == 12);
    assert(t[8].0 == "Int8Array"@);
    assert(t[8].0.len() == 9);
    assert(t[9].0 == "Uint8Array"@);
    assert(t[9].0.len() == 10);
    assert(t[10].0 == "Uint8ClampedArray"@);
    assert(t[10].0.len() == 17);
    assert(t[11].0 == "Int16Array"@);
    assert(t[11].0.len() == 10);
    assert(t[12].0 == "Uint16Array"@);
    assert(t[12].0.len() == 11);
    assert(t[13].0 == "Int32Array"@);
    assert(t[13].0.len() == 10);
    assert(t[14].0 == "Uint32Array"@);
    assert(t[14].0.len() == 11);
    assert(t[15].0 == "Float32Array"@);
    assert(t[15].0.len() == 12);
    assert(t[16].0 == "Float64Array"@);
    assert(t[16].0.len() == 12);
    assert(t[17].0 == "BigInt64Array"@);
    assert(t[17].0.len() == 13);
    assert(t[18].0 == "BigUint64Array"@);
    assert(t[18].0.len() == 14);
    assert(t[19].0 == "Array"@);
    assert(t[19].0 != "Error"@);
    assert(t[20].0 == "Map"@);
    assert(t[20].0.len() == 3);
    assert(t[21].0 == "Set"@);
    assert(t[21].0.len() == 3);
    assert(t[22].0 == "WeakMap"@);
    assert(t[22].0.len() == 7);
    assert(t[23].0 == "WeakSet"@);
    assert(t[23].0.len() == 7);
    assert(t[24].0 == "Date"@);
    assert(t[24].0.len() == 4);
    assert(t[25].0 == "RegExp"@);
    assert(t[25].0.len() == 6);
    assert(t[26].0 == "Promise"@);
    assert(t[26].0.len() == 7);
    assert(t[27].0 == "Error"@);
    lemma_table_lookup_at(t, "Error"@, 27);
}


proof fn lemma_table_lookup_absent(t: Seq<(Seq<char>, Seq<Seq<char>>)>, name: Seq<char>)
    requires
        forall|j: int| 0 <= j < t.len() ==> #[trigger] t[j].0 != name,
    ensures
        table_lookup(t, name) == Seq::<Seq<char>>::empty(),
    decreases t.len(),
{
    if t.len() > 0 {
        assert forall|j: int| 0 <= j < t.len() - 1 implies #[trigger] t.drop_first()[j].0 != name by {
            assert(t.drop_first()[j] == t[j + 1]);
        }
        lemma_table_lookup_absent(t.drop_first(), name);
    }
}

/// `Object` has no built-in parent.
proof fn lemma_object_has_no_builtin_parent()
    ensures
        builtin_parents_spec("Object"@) == Seq::<Seq<char>>::empty(),
{
    reveal_strlit("TypeError");
    reveal_strlit("RangeError");
    reveal_strlit("SyntaxError");
    reveal_strlit("ReferenceError");
    reveal_strlit("EvalError");
    reveal_strlit("URIError");
    reveal_strlit("AggregateError");
    reveal_strlit("DOMException");
    reveal_strlit("Int8Array");
    reveal_strlit("Uint8Array");
    reveal_strlit("Uint8ClampedArray");
    reveal_strlit("Int16Array");
    reveal_strlit("Uint16Array");
    reveal_strlit("Int32Array");
    reveal_strlit("Uint32Array");
    reveal_strlit("Float32Array");
    reveal_strlit("Float64Array");
    reveal_strlit("BigInt64Array");
    reveal_strlit("BigUint64Array");
    reveal_strlit("Array");
    reveal_strlit("Map");
    reveal_strlit("Set");
    reveal_strlit("WeakMap");
    reveal_strlit("WeakSet");
    reveal_strlit("Date");
    reveal_strlit("RegExp");
    reveal_strlit("Promise");
    reveal_strlit("Error");
    reveal_strlit("Object");
    let t = builtin_table();
    assert(t[0].0 == "TypeError"@);
    assert(t[0].0.len() == 9);
    assert(t[1].0 == "RangeError"@);
    assert(t[1].0.len() == 10);
    assert(t[2].0 == "SyntaxError"@);
    assert(t[2].0.len() == 11);
    assert(t[3].0 == "ReferenceError"@);
    assert(t[3].0.len() == 14);
    assert(t[4].0 == "EvalError"@);
    assert(t[4].0.len() == 9);
    assert(t[5].0 == "URIError"@);
    assert(t[5].0.len() == 8);
    assert(t[6].0 == "AggregateError"@);
    assert(t[6].0.len() == 14);
    assert(t[7].0 == "DOMException"@);
    assert(t[7].0.len() == 12);
    assert(t[8].0 == "Int8Array"@);
    assert(t[8].0.len() == 9);
    assert(t[9].0 == "Uint8Array"@);
    assert(t[9].0.len() == 10);
    assert(t[10].0 == "Uint8ClampedArray"@);
    assert(t[10].0.len() == 17);
    assert(t[11].0 == "Int16Array"@);
    assert(t[11].0.len() == 10);
    assert(t[12].0 == "Uint16Array"@);
    assert(t[12].0.len() == 11);
    assert(t[13].0 == "Int32Array"@);
    assert(t[13].0.len() == 10);
    assert(t[14].0 == "Uint32Array"@);
    assert(t[14].0.len() == 11);
    assert(t[15].0 == "Float32Array"@);
    assert(t[15].0.len() == 12);
    assert(t[16].0 == "Float64Array"@);
    assert(t[16].0.len() == 12);
    assert(t[17].0 == "BigInt64Array"@);
    assert(t[17].0.len() == 13);
    assert(t[18].0 == "BigUint64Array"@);
    assert(t[18].0.len() == 14);
    assert(t[19].0 == "Array"@);
    assert(t[19].0.len() == 5);
    assert(t[20].0 == "Map"@);
    assert(t[20].0.len() == 3);
    assert(t[21].0 == "Set"@);
    assert(t[21].0.len() == 3);
    assert(t[22].0 == "WeakMap"@);
    assert(t[22].0.len() == 7);
    assert(t[23].0 == "WeakSet"@);
    assert(t[23].0.len() == 7);
    assert(t[24].0 == "Date"@);
    assert(t[24].0.len() == 4);
    assert(t[25].0 == "RegExp"@);
    assert(t[25].0[0] != "Object"@[0]);
    assert(t[26].0 == "Promise"@);
    assert(t[26].0.len() == 7);
    assert(t[27].0 == "Error"@);
    assert(t[27].0.len() == 5);
    assert forall|j: int| 0 <= j < t.len() implies #[trigger] t[j].0 != "Object"@ by {}
    lemma_table_lookup_absent(t, "Object"@);
}

/// Without a declared parent of `Object`, the ancestor chain of a
/// built-in error class is the class, `Error`, `Object`.
pub proof fn law_error_class_chain(g: GlobalContext, scope: ScopeId, e: Seq<char>)
    requires
        is_builtin_error_subclass(e),
        user_parents_spec(g, scope, "Object"@).len() == 0,
    ensures
        ancestor_chain_spec(g, scope, e) == seq![e, "Error"@, "Object"@],
{
    reveal_strlit("TypeError");
    reveal_strlit("RangeError");
    reveal_strlit("SyntaxError");
    reveal_strlit("ReferenceError");
    reveal_strlit("EvalError");
    reveal_strlit("URIError");
    reveal_strlit("AggregateError");
    reveal_strlit("DOMException");
    reveal_strlit("Error");
    reveal_strlit("Object");
    law_builtin_error_parents(e);
    lemma_object_has_no_builtin_parent();
    let r = seq![e, "Error"@, "Object"@];
    assert(e.len() != 5 && e.len() != 6);
    assert(next_parent(g, scope, e) == Some("Error"@));
    assert(next_parent(g, scope, "Error"@) == Some("Object"@));
    assert(next_parent(g, scope, "Object"@) is None);
    assert(r.no_duplicates()) by {
        assert("Error"@.len() == 5 && "Object"@.len() == 6);
    }
    assert forall|i: int| 0 <= i < r.len() - 1 implies next_parent(g, scope, #[trigger] r[i]) == Some(
        r[i + 1],
    ) by {
        if i == 0 {
            assert(r[0] == e && r[1] == "Error"@);
        } else {
            assert(r[1] == "Error"@ && r[2] == "Object"@);
        }
    }
    assert(is_walk(g, scope, e, r));
    assert(r.last() == "Object"@);
    assert(is_ancestor_chain(g, scope, e, r));
    lemma_ancestor_chain_is_spec(g, scope, e, r);
}

/// Without a declared parent of `Object`, two different built-in error
/// classes have `Error` as their least upper bound.
pub proof fn law_lub_of_error_classes(g: GlobalContext, scope: ScopeId, a: Seq<char>, b: Seq<char>)
    requires
        is_builtin_error_subclass(a),
        is_builtin_error_subclass(b),
        a != b,
        user_parents_spec(g, scope, "Object"@).len() == 0,
    ensures
        lub_spec(g, scope, seq![a, b]) == Some("Error"@),
{
    reveal_strlit("TypeError");
    reveal_strlit("RangeError");
    reveal_strlit("SyntaxError");
    reveal_strlit("ReferenceError");
    reveal_strlit("EvalError");
    reveal_strlit("URIError");
    reveal_strlit("AggregateError");
    reveal_strlit("DOMException");
    reveal_strlit("Error");
    reveal_strlit("Object");
    law_error_class_chain(g, scope, a);
    law_error_class_chain(g, scope, b);
    let ca = seq![a, "Error"@, "Object"@];
    let cb = seq![b, "Error"@, "Object"@];
    let names = seq![a, b];
    let others = names.drop_first().map_values(|n: Seq<char>| ancestor_chain_spec(g, scope, n));
    assert(names.drop_first() =~= seq![b]);
    assert(others =~= seq![cb]);
    assert(a.len() != 5 && a.len() != 6);
    assert(!cb.contains(a)) by {
        if cb.contains(a) {
            let k = choose|k: int| 0 <= k < cb.len() && cb[k] == a;
            assert(k == 0 || k == 1 || k == 2);
        }
    }
    assert(!on_all(others, ca[0])) by {
        assert(others[0] == cb);
    }
    assert(cb[1] == "Error"@);
    assert(on_all(others, ca.drop_first()[0])) by {
        assert forall|j: int| 0 <= j < others.len() implies #[trigger] others[j].contains(
            ca.drop_first()[0],
        ) by {
            assert(others[j] == cb);
        }
    }
    assert(first_common(ca.drop_first(), others) == Some("Error"@));
    assert(first_common(ca, others) == first_common(ca.drop_first(), others));
}

/// A declared class whose `extends` is a bare reference to `p` has `p`
/// as its one declared parent; when the name has no built-in parents
/// that is its next supertype, the second entry of its ancestor chain.
pub proof fn law_class_extends_parent(
    g: GlobalContext,
    scope: ScopeId,
    name: Seq<char>,
    id: crate::context::TypeId,
    p: Seq<char>,
)
    requires
        resolve_spec(g.scopes@, scope.index(), name) == Some(id),
        (id.0 as int) < g.types@.len(),
        g.types@[id.0 as int].kind matches TypeKind::Class(c) && c.extends matches Some(t) && t@
            == TyV::Reference(seq![p], Seq::<TyV>::empty()),
    ensures
        user_parents_spec(g, scope, name) == seq![p],
        builtin_parents_spec(name).len() == 0 ==> next_parent(g, scope, name) == Some(p),
        (g.wf() && scope.index() < g.scopes@.len() && builtin_parents_spec(name).len() == 0 && p
            != name) ==> ancestor_chain_spec(g, scope, name).len() >= 2 && ancestor_chain_spec(
            g,
            scope,
            name,
        )[1] == p,
{
    if g.wf() && scope.index() < g.scopes@.len() && builtin_parents_spec(name).len() == 0 && p
        != name {
        lemma_chain_exists(g, scope, name);
        law_chain_shape(g, scope, name);
        let r = ancestor_chain_spec(g, scope, name);
        if is_walk(g, scope, name, r) {
            if r.len() == 1 {
                assert(r.last() == name);
                if next_parent(g, scope, r.last()) is Some {
                    assert(r.contains(p));
                    assert(r[0] == p);
                }
            }
            assert(next_parent(g, scope, r[0]) == Some(r[1]));
        } else {
            let w = r.drop_last();
            assert(is_walk(g, scope, name, w));
            if w.len() == 1 {
                assert(w.last() == name);
            }
            assert(next_parent(g, scope, w[0]) == Some(w[1]));
            assert(r[1] == w[1]);
        }
    }
}


/// The built-in collection, typed-array and other standard classes the
/// table knows (besides the error classes).
pub open spec fn is_builtin_object_subclass(x: Seq<char>) -> bool {
    x == "Int8Array"@ || x == "Uint8Array"@ || x == "Uint8ClampedArray"@ || x == "Int16Array"@ || x == "Uint16Array"@ || x == "Int32Array"@ || x == "Uint32Array"@ || x == "Float32Array"@ || x == "Float64Array"@ || x == "BigInt64Array"@ || x == "BigUint64Array"@ || x == "Array"@ || x == "Map"@ || x == "Set"@ || x == "WeakMap"@ || x == "WeakSet"@ || x == "Date"@ || x == "RegExp"@ || x == "Promise"@
}

/// The typed arrays, `Array`, `Map`, `Set`, `WeakMap`, `WeakSet`, `Date`,
/// `RegExp`, `Promise` and `Error` each have `Object` as their one
/// built-in parent.
pub proof fn law_builtin_object_parents(x: Seq<char>)
    requires
        is_builtin_object_subclass(x) || x == "Error"@,
    ensures
        builtin_parents_spec(x) == seq!["Object"@],
{
    reveal_strlit("TypeError");
    reveal_strlit("RangeError");
    reveal_strlit("SyntaxError");
    reveal_strlit("ReferenceError");
    reveal_strlit("EvalError");
    reveal_strlit("URIError");
    reveal_strlit("AggregateError");
    reveal_strlit("DOMException");
    reveal_strlit("Int8Array");
    reveal_strlit("Uint8Array");
    reveal_strlit("Uint8ClampedArray");
    reveal_strlit("Int16Array");
    reveal_strlit("Uint16Array");
    reveal_strlit("Int32Array");
    reveal_strlit("Uint32Array");
    reveal_strlit("Float32Array");
    reveal_strlit("Float64Array");
    reveal_strlit("BigInt64Array");
    reveal_strlit("BigUint64Array");
    reveal_strlit("Array");
    reveal_strlit("Map");
    reveal_strlit("Set");
    reveal_strlit("WeakMap");
    reveal_strlit("WeakSet");
    reveal_strlit("Date");
    reveal_strlit("RegExp");
    reveal_strlit("Promise");
    reveal_strlit("Error");
    reveal_strlit("Object");
    let t = builtin_table();
    assert(t[0].0 == "TypeError"@);
    assert(t[1].0 == "RangeError"@);
    assert(t[2].0 == "SyntaxError"@);
    assert(t[3].0 == "ReferenceError"@);
    assert(t[4].0 == "EvalError"@);
    assert(t[5].0 == "URIError"@);
    assert(t[6].0 == "AggregateError"@);
    assert(t[7].0 == "DOMException"@);
    assert(t[8].0 == "Int8Array"@);
    assert(t[9].0 == "Uint8Array"@);
    assert(t[10].0 == "Uint8ClampedArray"@);
    assert(t[11].0 == "Int16Array"@);
    assert(t[12].0 == "Uint16Array"@);
    assert(t[13].0 == "Int32Array"@);
    assert(t[14].0 == "Uint32Array"@);
    assert(t[15].0 == "Float32Array"@);
    assert(t[16].0 == "Float64Array"@);
    assert(t[17].0 == "BigInt64Array"@);
    assert(t[18].0 == "BigUint64Array"@);
    assert(t[19].0 == "Array"@);
    assert(t[20].0 == "Map"@);
    assert(t[21].0 == "Set"@);
    assert(t[22].0 == "WeakMap"@);
    assert(t[23].0 == "WeakSet"@);
    assert(t[24].0 == "Date"@);
    assert(t[25].0 == "RegExp"@);
    assert(t[26].0 == "Promise"@);
    assert(t[27].0 == "Error"@);
    assert(builtin_parents_spec("Int8Array"@) == seq!["Object"@]) by {
        assert(t[0].0[0] != "Int8Array"@[0]);
        assert(t[1].0.len() == 10);
        assert(t[2].0.len() == 11);
        assert(t[3].0.len() == 14);
        assert(t[4].0[0] != "Int8Array"@[0]);
        assert(t[5].0.len() == 8);
        assert(t[6].0.len() == 14);
        assert(t[7].0.len() == 12);
        lemma_table_lookup_at(t, "Int8Array"@, 8);
    }
    assert(builtin_parents_spec("Uint8Array"@) == seq!["Object"@]) by {
        assert(t[0].0.len() == 9);
        assert(t[1].0[0] != "Uint8Array"@[0]);
        assert(t[2].0.len() == 11);
        assert(t[3].0.len() == 14);
        assert(t[4].0.len() == 9);
        assert(t[5].0.len() == 8);
        assert(t[6].0.len() == 14);
        assert(t[7].0.len() == 12);
        assert(t[8].0.len() == 9);
        lemma_table_lookup_at(t, "Uint8Array"@, 9);
    }
    assert(builtin_parents_spec("Uint8ClampedArray"@) == seq!["Object"@]) by {
        assert(t[0].0.len() == 9);
        assert(t[1].0.len() == 10);
        assert(t[2].0.len() == 11);
        assert(t[3].0.len() == 14);
        assert(t[4].0.len() == 9);
        assert(t[5].0.len() == 8);
        assert(t[6].0.len() == 14);
        assert(t[7].0.len() == 12);
        assert(t[8].0.len() == 9);
        assert(t[9].0.len() == 10);
        lemma_table_lookup_at(t, "Uint8ClampedArray"@, 10);
    }
    assert(builtin_parents_spec("Int16Array"@) == seq!["Object"@]) by {
        assert(t[0].0.len() == 9);
        assert(t[1].0[0] != "Int16Array"@[0]);
        assert(t[2].0.len() == 11);
        assert(t[3].0.len() == 14);
        assert(t[4].0.len() == 9);
        assert(t[5].0.len() == 8);
        assert(t[6].0.len() == 14);
        assert(t[7].0.len() == 12);
        assert(t[8].0.len() == 9);
        assert(t[9].0[0] != "Int16Array"@[0]);
        assert(t[10].0.len() == 17);
        lemma_table_lookup_at(t, "Int16Array"@, 11);
    }
    assert(builtin_parents_spec("Uint16Array"@) == seq!["Object"@]) by {
        assert(t[0].0.len() == 9);
        assert(t[1].0.len() == 10);
        assert(t[2].0[0] != "Uint16Array"@[0]);
        assert(t[3].0.len() == 14);
        assert(t[4].0.len() == 9);
        assert(t[5].0.len() == 8);
        assert(t[6].0.len() == 14);
        assert(t[7].0.len() == 12);
        assert(t[8].0.len() == 9);
        assert(t[9].0.len() == 10);
        assert(t[10].0.len() == 17);
        assert(t[11].0.len() == 10);
        lemma_table_lookup_at(t, "Uint16Array"@, 12);
    }
    assert(builtin_parents_spec("Int32Array"@) == seq!["Object"@]) by {
        assert(t[0].0.len() == 9);
        assert(t[1].0[0] != "Int32Array"@[0]);
        assert(t[2].0.len() == 11);
        assert(t[3].0.len() == 14);
        assert(t[4].0.len() == 9);
        assert(t[5].0.len() == 8);
        assert(t[6].0.len() == 14);
        assert(t[7].0.len() == 12);
        assert(t[8].0.len() == 9);
        assert(t[9].0[0] != "Int32Array"@[0]);
        assert(t[10].0.len() == 17);
        assert(t[11].0[3] != "Int32Array"@[3]);
        assert(t[12].0.len() == 11);
        lemma_table_lookup_at(t, "Int32Array"@, 13);
    }
    assert(builtin_parents_spec("Uint32Array"@) == seq!["Object"@]) by {
        assert(t[0].0.len() == 9);
        assert(t[1].0.len() == 10);
        assert(t[2].0[0] != "Uint32Array"@[0]);
        assert(t[3].0.len() == 14);
        assert(t[4].0.len() == 9);
        assert(t[5].0.len() == 8);
        assert(t[6].0.len() == 14);
        assert(t[7].0.len() == 12);
        assert(t[8].0.len() == 9);
        assert(t[9].0.len() == 10);
        assert(t[10].0.len() == 17);
        assert(t[11].0.len() == 10);
        assert(t[12].0[4] != "Uint32Array"@[4]);
        assert(t[13].0.len() == 10);
        lemma_table_lookup_at(t, "Uint32Array"@, 14);
    }
    assert(builtin_parents_spec("Float32Array"@) == seq!["Object"@]) by {
        assert(t[0].0.len() == 9);
        assert(t[1].0.len() == 10);
        assert(t[2].0.len() == 11);
        assert(t[3].0.len() == 14);
        assert(t[4].0.len() == 9);
        assert(t[5].0.len() == 8);
        assert(t[6].0.len() == 14);
        assert(t[7].0[0] != "Float32Array"@[0]);
        assert(t[8].0.len() == 9);
        assert(t[9].0.len() == 10);
        assert(t[10].0.len() == 17);
        assert(t[11].0.len() == 10);
        assert(t[12].0.len() == 11);
        assert(t[13].0.len() == 10);
        assert(t[14].0.len() == 11);
        lemma_table_lookup_at(t, "Float32Array"@, 15);
    }
    assert(builtin_parents_spec("Float64Array"@) == seq!["Object"@]) by {
        assert(t[0].0.len() == 9);
        assert(t[1].0.len() == 10);
        assert(t[2].0.len() == 11);
        assert(t[3].0.len() == 14);
        assert(t[4].0.len() == 9);
        assert(t[5].0.len() == 8);
        assert(t[6].0.len() == 14);
        assert(t[7].0[0] != "Float64Array"@[0]);
        assert(t[8].0.len() == 9);
        assert(t[9].0.len() == 10);
        assert(t[10].0.len() == 17);
        assert(t[11].0.len() == 10);
        assert(t[12].0.len() == 11);
        assert(t[13].0.len() == 10);
        assert(t[14].0.len() == 11);
        assert(t[15].0[5] != "Float64Array"@[5]);
        lemma_table_lookup_at(t, "Float64Array"@, 16);
    }
    assert(builtin_parents_spec("BigInt64Array"@) == seq!["Object"@]) by {
        assert(t[0].0.len() == 9);
        assert(t[1].0.len() == 10);
        assert(t[2].0.len() == 11);
        assert(t[3].0.len() == 14);
        assert(t[4].0.len() == 9);
        assert(t[5].0.len() == 8);
        assert(t[6].0.len() == 14);
        assert(t[7].0.len() == 12);
        assert(t[8].0.len() == 9);
        assert(t[9].0.len() == 10);
        assert(t[10].0.len() == 17);
        assert(t[11].0.len() == 10);
        assert(t[12].0.len() == 11);
        assert(t[13].0.len() == 10);
        assert(t[14].0.len() == 11);
        assert(t[15].0.len() == 12);
        assert(t[16].0.len() == 12);
        lemma_table_lookup_at(t, "BigInt64Array"@, 17);
    }
    assert(builtin_parents_spec("BigUint64Array"@) == seq!["Object"@]) by {
        assert(t[0].0.len() == 9);
        assert(t[1].0.len() == 10);
        assert(t[2].0.len() == 11);
        assert(t[3].0[0] != "BigUint64Array"@[0]);
        assert(t[4].0.len() == 9);
        assert(t[5].0.len() == 8);
        assert(t[6].0[0] != "BigUint64Array"@[0]);
        assert(t[7].0.len() == 12);
        assert(t[8].0.len() == 9);
        assert(t[9].0.len() == 10);
        assert(t[10].0.len() == 17);
        assert(t[11].0.len() == 10);
        assert(t[12].0.len() == 11);
        assert(t[13].0.len() == 10);
        assert(t[14].0.len() == 11);
        assert(t[15].0.len() == 12);
        assert(t[16].0.len() == 12);
        assert(t[17].0.len() == 13);
        lemma_table_lookup_at(t, "BigUint64Array"@, 18);
    }
    assert(builtin_parents_spec("Array"@) == seq!["Object"@]) by {
        assert(t[0].0.len() == 9);
        assert(t[1].0.len() == 10);
        assert(t[2].0.len() == 11);
        assert(t[3].0.len() == 14);
        assert(t[4].0.len() == 9);
        assert(t[5].0.len() == 8);
        assert(t[6].0.len() == 14);
        assert(t[7].0.len() == 12);
        assert(t[8].0.len() == 9);
        assert(t[9].0.len() == 10);
        assert(t[10].0.len() == 17);
        assert(t[11].0.len() == 10);
        assert(t[12].0.len() == 11);
        assert(t[13].0.len() == 10);
        assert(t[14].0.len() == 11);
        assert(t[15].0.len() == 12);
        assert(t[16].0.len() == 12);
        assert(t[17].0.len() == 13);
        assert(t[18].0.len() == 14);
        lemma_table_lookup_at(t, "Array"@, 19);
    }
    assert(builtin_parents_spec("Map"@) == seq!["Object"@]) by {
        assert(t[0].0.len() == 9);
        assert(t[1].0.len() == 10);
        assert(t[2].0.len() == 11);
        assert(t[3].0.len() == 14);
        assert(t[4].0.len() == 9);
        assert(t[5].0.len() == 8);
        assert(t[6].0.len() == 14);
        assert(t[7].0.len() == 12);
        assert(t[8].0.len() == 9);
        assert(t[9].0.len() == 10);
        assert(t[10].0.len() == 17);
        assert(t[11].0.len() == 10);
        assert(t[12].0.len() == 11);
        assert(t[13].0.len() == 10);
        assert(t[14].0.len() == 11);
        assert(t[15].0.len() == 12);
        assert(t[16].0.len() == 12);
        assert(t[17].0.len() == 13);
        assert(t[18].0.len() == 14);
        assert(t[19].0.len() == 5);
        lemma_table_lookup_at(t, "Map"@, 20);
    }
    assert(builtin_parents_spec("Set"@) == seq!["Object"@]) by {
        assert(t[0].0.len() == 9);
        assert(t[1].0.len() == 10);
        assert(t[2].0.len() == 11);
        assert(t[3].0.len() == 14);
        assert(t[4].0.len() == 9);
        assert(t[5].0.len() == 8);
        assert(t[6].0.len() == 14);
        assert(t[7].0.len() == 12);
        assert(t[8].0.len() == 9);
        assert(t[9].0.len() == 10);
        assert(t[10].0.len() == 17);
        assert(t[11].0.len() == 10);
        assert(t[12].0.len() == 11);
        assert(t[13].0.len() == 10);
        assert(t[14].0.len() == 11);
        assert(t[15].0.len() == 12);
        assert(t[16].0.len() == 12);
        assert(t[17].0.len() == 13);
        assert(t[18].0.len() == 14);
        assert(t[19].0.len() == 5);
        assert(t[20].0[0] != "Set"@[0]);
        lemma_table_lookup_at(t, "Set"@, 21);
    }
    assert(builtin_parents_spec("WeakMap"@) == seq!["Object"@]) by {
        assert(t[0].0.len() == 9);
        assert(t[1].0.len() == 10);
        assert(t[2].0.len() == 11);
        assert(t[3].0.len() == 14);
        assert(t[4].0.len() == 9);
        assert(t[5].0.len() == 8);
        assert(t[6].0.len() == 14);
        assert(t[7].0.len() == 12);
        assert(t[8].0.len() == 9);
        assert(t[9].0.len() == 10);
        assert(t[10].0.len() == 17);
        assert(t[11].0.len() == 10);
        assert(t[12].0.len() == 11);
        assert(t[13].0.len() == 10);
        assert(t[14].0.len() == 11);
        assert(t[15].0.len() == 12);
        assert(t[16].0.len() == 12);
        assert(t[17].0.len() == 13);
        assert(t[18].0.len() == 14);
        assert(t[19].0.len() == 5);
        assert(t[20].0.len() == 3);
        assert(t[21].0.len() == 3);
        lemma_table_lookup_at(t, "WeakMap"@, 22);
    }
    assert(builtin_parents_spec("WeakSet"@) == seq!["Object"@]) by {
        assert(t[0].0.len() == 9);
        assert(t[1].0.len() == 10);
        assert(t[2].0.len() == 11);
        assert(t[3].0.len() == 14);
        assert(t[4].0.len() == 9);
        assert(t[5].0.len() == 8);
        assert(t[6].0.len() == 14);
        assert(t[7].0.len() == 12);
        assert(t[8].0.len() == 9);
        assert(t[9].0.len() == 10);
        assert(t[10].0.len() == 17);
        assert(t[11].0.len() == 10);
        assert(t[12].0.len() == 11);
        assert(t[13].0.len() == 10);
        assert(t[14].0.len() == 11);
        assert(t[15].0.len() == 12);
        assert(t[16].0.len() == 12);
        assert(t[17].0.len() == 13);
        assert(t[18].0.len() == 14);
        assert(t[19].0.len() == 5);
        assert(t[20].0.len() == 3);
        assert(t[21].0.len() == 3);
        assert(t[22].0[4] != "WeakSet"@[4]);
        lemma_table_lookup_at(t, "WeakSet"@, 23);
    }
    assert(builtin_parents_spec("Date"@) == seq!["Object"@]) by {
        assert(t[0].0.len() == 9);
        assert(t[1].0.len() == 10);
        assert(t[2].0.len() == 11);
        assert(t[3].0.len() == 14);
        assert(t[4].0.len() == 9);
        assert(t[5].0.len() == 8);
        assert(t[6].0.len() == 14);
        assert(t[7].0.len() == 12);
        assert(t[8].0.len() == 9);
        assert(t[9].0.len() == 10);
        assert(t[10].0.len() == 17);
        assert(t[11].0.len() == 10);
        assert(t[12].0.len() == 11);
        assert(t[13].0.len() == 10);
        assert(t[14].0.len() == 11);
        assert(t[15].0.len() == 12);
        assert(t[16].0.len() == 12);
        assert(t[17].0.len() == 13);
        assert(t[18].0.len() == 14);
        assert(t[19].0.len() == 5);
        assert(t[20].0.len() == 3);
        assert(t[21].0.len() == 3);
        assert(t[22].0.len() == 7);
        assert(t[23].0.len() == 7);
        lemma_table_lookup_at(t, "Date"@, 24);
    }
    assert(builtin_parents_spec("RegExp"@) == seq!["Object"@]) by {
        assert(t[0].0.len() == 9);
        assert(t[1].0.len() == 10);
        assert(t[2].0.len() == 11);
        assert(t[3].0.len() == 14);
        assert(t[4].0.len() == 9);
        assert(t[5].0.len() == 8);
        assert(t[6].0.len() == 14);
        assert(t[7].0.len() == 12);
        assert(t[8].0.len() == 9);
        assert(t[9].0.len() == 10);
        assert(t[10].0.len() == 17);
        assert(t[11].0.len() == 10);
        assert(t[12].0.len() == 11);
        assert(t[13].0.len() == 10);
        assert(t[14].0.len() == 11);
        assert(t[15].0.len() == 12);
        assert(t[16].0.len() == 12);
        assert(t[17].0.len() == 13);
        assert(t[18].0.len() == 14);
        assert(t[19].0.len() == 5);
        assert(t[20].0.len() == 3);
        assert(t[21].0.len() == 3);
        assert(t[22].0.len() == 7);
        assert(t[23].0.len() == 7);
        assert(t[24].0.len() == 4);
        lemma_table_lookup_at(t, "RegExp"@, 25);
    }
    assert(builtin_parents_spec("Promise"@) == seq!["Object"@]) by {
        assert(t[0].0.len() == 9);
        assert(t[1].0.len() == 10);
        assert(t[2].0.len() == 11);
        assert(t[3].0.len() == 14);
        assert(t[4].0.len() == 9);
        assert(t[5].0.len() == 8);
        assert(t[6].0.len() == 14);
        assert(t[7].0.len() == 12);
        assert(t[8].0.len() == 9);
        assert(t[9].0.len() == 10);
        assert(t[10].0.len() == 17);
        assert(t[11].0.len() == 10);
        assert(t[12].0.len() == 11);
        assert(t[13].0.len() == 10);
        assert(t[14].0.len() == 11);
        assert(t[15].0.len() == 12);
        assert(t[16].0.len() == 12);
        assert(t[17].0.len() == 13);
        assert(t[18].0.len() == 14);
        assert(t[19].0.len() == 5);
        assert(t[20].0.len() == 3);
        assert(t[21].0.len() == 3);
        assert(t[22].0[0] != "Promise"@[0]);
        assert(t[23].0[0] != "Promise"@[0]);
        assert(t[24].0.len() == 4);
        assert(t[25].0.len() == 6);
        lemma_table_lookup_at(t, "Promise"@, 26);
    }
    assert(builtin_parents_spec("Error"@) == seq!["Object"@]) by {
        assert(t[0].0.len() == 9);
        assert(t[1].0.len() == 10);
        assert(t[2].0.len() == 11);
        assert(t[3].0.len() == 14);
        assert(t[4].0.len() == 9);
        assert(t[5].0.len() == 8);
        assert(t[6].0.len() == 14);
        assert(t[7].0.len() == 12);
        assert(t[8].0.len() == 9);
        assert(t[9].0.len() == 10);
        assert(t[10].0.len() == 17);
        assert(t[11].0.len() == 10);
        assert(t[12].0.len() == 11);
        assert(t[13].0.len() == 10);
        assert(t[14].0.len() == 11);
        assert(t[15].0.len() == 12);
        assert(t[16].0.len() == 12);
        assert(t[17].0.len() == 13);
        assert(t[18].0.len() == 14);
        assert(t[19].0[0] != "Error"@[0]);
        assert(t[20].0.len() == 3);
        assert(t[21].0.len() == 3);
        assert(t[22].0.len() == 7);
        assert(t[23].0.len() == 7);
        assert(t[24].0.len() == 4);
        assert(t[25].0.len() == 6);
        assert(t[26].0.len() == 7);
        lemma_table_lookup_at(t, "Error"@, 27);
    }
}


proof fn lemma_refs_names_bare(s: Seq<TypeRef>, ps: Seq<Seq<char>>)
    requires
        s.len() == ps.len(),
        forall|k: int|
            0 <= k < s.len() ==> (#[trigger] s[k])@ == TyV::Reference(seq![ps[k]], Seq::<TyV>::empty()),
    ensures
        refs_names(s) == ps,
    decreases s.len(),
{
    if s.len() > 0 {
        assert forall|k: int| 0 <= k < s.len() - 1 implies (#[trigger] s.drop_last()[k])@ == TyV::Reference(
            seq![ps.drop_last()[k]],
            Seq::<TyV>::empty(),
        ) by {
            assert(s.drop_last()[k] == s[k]);
        }
        lemma_refs_names_bare(s.drop_last(), ps.drop_last());
        assert(s.last()@ == TyV::Reference(seq![ps.last()], Seq::<TyV>::empty()));
        assert(ref_names(s.last()@) =~= seq![ps.last()]);
        assert(ps.drop_last().push(ps.last()) =~= ps);
    }
}

/// A declared interface whose `extends` list names bare types
/// `ps[0], ps[1], ...` has exactly those, in that order, as its declared
/// parents.
pub proof fn law_interface_extends_parents(
    g: GlobalContext,
    scope: ScopeId,
    name: Seq<char>,
    id: crate::context::TypeId,
    ps: Seq<Seq<char>>,
)
    requires
        resolve_spec(g.scopes@, scope.index(), name) == Some(id),
        (id.0 as int) < g.types@.len(),
        g.types@[id.0 as int].kind matches TypeKind::Interface(i) && i.extends@.len() == ps.len()
            && forall|k: int|
            0 <= k < ps.len() ==> (#[trigger] i.extends@[k])@ == TyV::Reference(
                seq![ps[k]],
                Seq::<TyV>::empty(),
            ),
    ensures
        user_parents_spec(g, scope, name) == ps,
{
    if let TypeKind::Interface(i) = g.types@[id.0 as int].kind {
        lemma_refs_names_bare(i.extends@, ps);
    }
}


/// A name that is none of the built-in error classes, none of the
/// built-in `Object` subclasses and not `Error` has no built-in parent.
pub proof fn law_unknown_names_have_no_builtin_parent(x: Seq<char>)
    requires
        !is_builtin_error_subclass(x),
        !is_builtin_object_subclass(x),
        x != "Error"@,
    ensures
        builtin_parents_spec(x) == Seq::<Seq<char>>::empty(),
{
    let t = builtin_table();
    assert(t.len() == 28);
    assert(t[0].0 == "TypeError"@);
    assert(t[1].0 == "RangeError"@);
    assert(t[2].0 == "SyntaxError"@);
    assert(t[3].0 == "ReferenceError"@);
    assert(t[4].0 == "EvalError"@);
    assert(t[5].0 == "URIError"@);
    assert(t[6].0 == "AggregateError"@);
    assert(t[7].0 == "DOMException"@);
    assert(t[8].0 == "Int8Array"@);
    assert(t[9].0 == "Uint8Array"@);
    assert(t[10].0 == "Uint8ClampedArray"@);
    assert(t[11].0 == "Int16Array"@);
    assert(t[12].0 == "Uint16Array"@);
    assert(t[13].0 == "Int32Array"@);
    assert(t[14].0 == "Uint32Array"@);
    assert(t[15].0 == "Float32Array"@);
    assert(t[16].0 == "Float64Array"@);
    assert(t[17].0 == "BigInt64Array"@);
    assert(t[18].0 == "BigUint64Array"@);
    assert(t[19].0 == "Array"@);
    assert(t[20].0 == "Map"@);
    assert(t[21].0 == "Set"@);
    assert(t[22].0 == "WeakMap"@);
    assert(t[23].0 == "WeakSet"@);
    assert(t[24].0 == "Date"@);
    assert(t[25].0 == "RegExp"@);
    assert(t[26].0 == "Promise"@);
    assert(t[27].0 == "Error"@);
    assert forall|j: int| 0 <= j < t.len() implies #[trigger] t[j].0 != x by {
        assert(j == 0 || j == 1 || j == 2 || j == 3 || j == 4 || j == 5 || j == 6 || j == 7 || j == 8 || j == 9 || j == 10 || j == 11 || j == 12 || j == 13 || j == 14 || j == 15 || j == 16 || j == 17 || j == 18 || j == 19 || j == 20 || j == 21 || j == 22 || j == 23 || j == 24 || j == 25 || j == 26 || j == 27);
    }
    lemma_table_lookup_absent(t, x);
}

} // verus!
