//! TypeScript type scope tracking with arena-based ownership.
//!
//! Each scope maps type names to a binding: a declared type (by
//! `TypeId`) or an in-scope generic type parameter. Scopes form a tree
//! through parent links and live in a flat arena addressed by `ScopeId`.
//! Resolution walks from a scope to the root and returns the closest
//! binding, so an inner type parameter shadows an outer declaration.

use vstd::prelude::*;

use crate::context::TypeId;
use crate::text::str_eq;

verus! {

/// Index into a `ScopeArena`.
#[derive(Clone, Copy, Debug, PartialEq, Eq, Hash, Structural)]
pub struct ScopeId(pub(crate) u32);

impl ScopeId {
    /// Placeholder scope id (the first slot) for IR nodes built without
    /// scope-driven resolution.
    pub fn dummy() -> (r: ScopeId)
        ensures
            r.index() == 0,
    {
        ScopeId(0)
    }

    /// The arena position this id designates.
    pub closed spec fn index(self) -> int {
        self.0 as int
    }
}

/// The id of arena position `i`.
pub closed spec fn scope_at(i: int) -> ScopeId {
    ScopeId(i as u32)
}

/// An id is the id of its own position.
pub proof fn lemma_scope_at(id: ScopeId)
    ensures
        scope_at(id.index()) == id,
{
}

/// Ids are the positions `0 ..= u32::MAX`, one id per position.
pub proof fn lemma_scope_id_index(a: ScopeId, b: ScopeId)
    ensures
        0 <= a.index() <= u32::MAX,
        (a.index() == b.index()) <==> (a == b),
{
}

/// What a name in a scope resolves to.
#[derive(Clone, Copy, Debug, PartialEq, Eq, Structural)]
pub enum Binding {
    /// A real type declaration in the global arena.
    Declared(TypeId),
    /// An in-scope generic type parameter.
    TypeParam,
}

/// The abstract content of one scope: its parent and its bindings in
/// insertion order (each name at most once).
pub struct ScopeRecord {
    pub parent: Option<ScopeId>,
    pub entries: Seq<(Seq<char>, Binding)>,
}

/// Position of the first entry for `name`.
pub open spec fn key_index(entries: Seq<(Seq<char>, Binding)>, name: Seq<char>) -> Option<int>
    decreases entries.len(),
{
    if entries.len() == 0 {
        None
    } else if entries[0].0 == name {
        Some(0)
    } else {
        match key_index(entries.drop_first(), name) {
            Some(k) => Some(k + 1),
            None => None,
        }
    }
}

/// The binding recorded for `name`, if any.
pub open spec fn lookup(entries: Seq<(Seq<char>, Binding)>, name: Seq<char>) -> Option<Binding> {
    match key_index(entries, name) {
        Some(k) => Some(entries[k].1),
        None => None,
    }
}

/// Record `name -> b`, replacing an existing entry for `name` in place.
pub open spec fn set_entry(entries: Seq<(Seq<char>, Binding)>, name: Seq<char>, b: Binding) -> Seq<
    (Seq<char>, Binding),
> {
    match key_index(entries, name) {
        Some(k) => entries.update(k, (name, b)),
        None => entries.push((name, b)),
    }
}

/// The declared-type entries, in order.
pub open spec fn declared_entries(entries: Seq<(Seq<char>, Binding)>) -> Seq<(Seq<char>, TypeId)>
    decreases entries.len(),
{
    if entries.len() == 0 {
        seq![]
    } else {
        let rest = declared_entries(entries.drop_last());
        match entries.last().1 {
            Binding::Declared(id) => rest.push((entries.last().0, id)),
            Binding::TypeParam => rest,
        }
    }
}

/// No name is bound twice.
pub open spec fn distinct_keys(entries: Seq<(Seq<char>, Binding)>) -> bool {
    forall|i: int, j: int|
        0 <= i < j < entries.len() ==> #[trigger] entries[i].0 != #[trigger] entries[j].0
}

pub proof fn lemma_key_index_bounds(entries: Seq<(Seq<char>, Binding)>, name: Seq<char>)
    ensures
        match key_index(entries, name) {
            Some(k) => 0 <= k < entries.len() && entries[k].0 == name && forall|j: int|
                0 <= j < k ==> #[trigger] entries[j].0 != name,
            None => forall|j: int| 0 <= j < entries.len() ==> #[trigger] entries[j].0 != name,
        },
    decreases entries.len(),
{
    if entries.len() > 0 && entries[0].0 != name {
        lemma_key_index_bounds(entries.drop_first(), name);
        match key_index(entries.drop_first(), name) {
            Some(k) => {
                assert forall|j: int| 0 <= j < k + 1 implies #[trigger] entries[j].0 != name by {
                    if j > 0 {
                        assert(entries[j] == entries.drop_first()[j - 1]);
                    }
                }
            },
            None => {
                assert forall|j: int| 0 <= j < entries.len() implies #[trigger] entries[j].0
                    != name by {
                    if j > 0 {
                        assert(entries[j] == entries.drop_first()[j - 1]);
                    }
                }
            },
        }
    }
}

/// A first-match characterization of `key_index`.
pub proof fn lemma_key_index_at(entries: Seq<(Seq<char>, Binding)>, name: Seq<char>, k: int)
    requires
        0 <= k < entries.len(),
        entries[k].0 == name,
        forall|j: int| 0 <= j < k ==> #[trigger] entries[j].0 != name,
    ensures
        key_index(entries, name) == Some(k),
{
    lemma_key_index_bounds(entries, name);
}

/// After recording `name -> b`, looking `name` up gives `b` and every other
/// name keeps its binding.
pub proof fn lemma_set_entry_lookup(
    entries: Seq<(Seq<char>, Binding)>,
    name: Seq<char>,
    b: Binding,
    other: Seq<char>,
)
    ensures
        lookup(set_entry(entries, name, b), name) == Some(b),
        other != name ==> lookup(set_entry(entries, name, b), other) == lookup(entries, other),
        distinct_keys(entries) ==> distinct_keys(set_entry(entries, name, b)),
{
    lemma_key_index_bounds(entries, name);
    lemma_key_index_bounds(entries, other);
    let e2 = set_entry(entries, name, b);
    lemma_key_index_bounds(e2, name);
    lemma_key_index_bounds(e2, other);
    match key_index(entries, name) {
        Some(k) => {
            lemma_key_index_at(e2, name, k);
            if other != name {
                match key_index(entries, other) {
                    Some(m) => {
                        lemma_key_index_at(e2, other, m);
                    },
                    None => {},
                }
            }
        },
        None => {
            lemma_key_index_at(e2, name, entries.len() as int);
            if other != name {
                match key_index(entries, other) {
                    Some(m) => {
                        lemma_key_index_at(e2, other, m);
                    },
                    None => {},
                }
            }
        },
    }
}

/// With no name bound twice, `name` is bound to `b` exactly when some
/// entry records `name -> b`.
pub proof fn lemma_lookup_distinct(entries: Seq<(Seq<char>, Binding)>, name: Seq<char>, b: Binding)
    requires
        distinct_keys(entries),
    ensures
        lookup(entries, name) == Some(b) <==> exists|j: int|
            0 <= j < entries.len() && #[trigger] entries[j] == (name, b),
{
    lemma_key_index_bounds(entries, name);
    if exists|j: int| 0 <= j < entries.len() && #[trigger] entries[j] == (name, b) {
        let j = choose|j: int| 0 <= j < entries.len() && #[trigger] entries[j] == (name, b);
        match key_index(entries, name) {
            Some(k) => {
                if k != j {
                    assert(entries[k].0 == entries[j].0);
                }
            },
            None => {
                assert(entries[j].0 == name);
            },
        }
    }
}

/// The declared entries of a scope with no name bound twice name each
/// declared name once, and are exactly its `name -> Declared(id)` entries.
pub proof fn lemma_declared_entries(entries: Seq<(Seq<char>, Binding)>)
    requires
        distinct_keys(entries),
    ensures
        forall|i: int, j: int|
            0 <= i < j < declared_entries(entries).len() ==> #[trigger] declared_entries(
                entries,
            )[i].0 != #[trigger] declared_entries(entries)[j].0,
        forall|name: Seq<char>, id: TypeId|
            #[trigger] declared_entries(entries).contains((name, id)) <==> exists|j: int|
                0 <= j < entries.len() && #[trigger] entries[j] == (name, Binding::Declared(id)),
    decreases entries.len(),
{
    if entries.len() > 0 {
        let e = entries.drop_last();
        assert(distinct_keys(e)) by {
            assert forall|i: int, j: int| 0 <= i < j < e.len() implies #[trigger] e[i].0
                != #[trigger] e[j].0 by {
                assert(e[i] == entries[i] && e[j] == entries[j]);
            }
        }
        lemma_declared_entries(e);
        let d = declared_entries(e);
        let last = entries.last();
        assert forall|name: Seq<char>, id: TypeId|
            #![trigger d.contains((name, id))]
            (exists|j: int| 0 <= j < e.len() && #[trigger] e[j] == (name, Binding::Declared(id)))
                <==> (exists|j: int|
                0 <= j < entries.len() - 1 && #[trigger] entries[j] == (name, Binding::Declared(
                    id,
                ))) by {
            if exists|j: int| 0 <= j < e.len() && #[trigger] e[j] == (name, Binding::Declared(id)) {
                let j = choose|j: int| 0 <= j < e.len() && #[trigger] e[j] == (name, Binding::Declared(id));
                assert(entries[j] == e[j]);
            }
            if exists|j: int|
                0 <= j < entries.len() - 1 && #[trigger] entries[j] == (name, Binding::Declared(id)) {
                let j = choose|j: int|
                    0 <= j < entries.len() - 1 && #[trigger] entries[j] == (name, Binding::Declared(
                        id,
                    ));
                assert(entries[j] == e[j]);
            }
        }
        // A name declared earlier differs from the last entry's name.
        assert forall|k: int| 0 <= k < d.len() implies #[trigger] d[k].0 != last.0 by {
            assert(d.contains(d[k]));
            let j = choose|j: int| 0 <= j < e.len() && #[trigger] e[j] == (d[k].0, Binding::Declared(d[k].1));
            assert(entries[j] == e[j]);
            assert(entries[j].0 != entries[entries.len() - 1].0);
        }
        match last.1 {
            Binding::Declared(id0) => {
                let dd = declared_entries(entries);
                assert(dd == d.push((last.0, id0)));
                assert forall|i: int, j: int| 0 <= i < j < dd.len() implies #[trigger] dd[i].0
                    != #[trigger] dd[j].0 by {
                    assert(dd[i] == d[i]);
                    if j < d.len() {
                        assert(dd[j] == d[j]);
                    }
                }
                assert forall|name: Seq<char>, id: TypeId| #[trigger] dd.contains((name, id)) <==> exists|j: int|
                    0 <= j < entries.len() && #[trigger] entries[j] == (name, Binding::Declared(id)) by {
                    if dd.contains((name, id)) {
                        let k = choose|k: int| 0 <= k < dd.len() && dd[k] == (name, id);
                        if k < d.len() {
                            assert(d[k] == dd[k]);
                            assert(d.contains((name, id)));
                        } else {
                            assert(entries[entries.len() - 1] == (name, Binding::Declared(id)));
                        }
                    }
                    if exists|j: int|
                        0 <= j < entries.len() && #[trigger] entries[j] == (name, Binding::Declared(id)) {
                        let j = choose|j: int|
                            0 <= j < entries.len() && #[trigger] entries[j] == (name, Binding::Declared(
                                id,
                            ));
                        if j < entries.len() - 1 {
                            assert(d.contains((name, id)));
                            let k = choose|k: int| 0 <= k < d.len() && d[k] == (name, id);
                            assert(dd[k] == d[k]);
                        } else {
                            assert(dd[dd.len() - 1] == (name, id));
                        }
                    }
                }
            },
            Binding::TypeParam => {
                assert(declared_entries(entries) == d);
                assert forall|name: Seq<char>, id: TypeId| #[trigger] d.contains((name, id)) <==> exists|j: int|
                    0 <= j < entries.len() && #[trigger] entries[j] == (name, Binding::Declared(id)) by {
                    if exists|j: int|
                        0 <= j < entries.len() && #[trigger] entries[j] == (name, Binding::Declared(id)) {
                        let j = choose|j: int|
                            0 <= j < entries.len() && #[trigger] entries[j] == (name, Binding::Declared(
                                id,
                            ));
                        if j == entries.len() - 1 {
                            assert(entries[j].1 == Binding::TypeParam);
                        }
                    }
                }
            },
        }
    }
}

/// Names and declared types, as plain values.
pub open spec fn id_pairs(v: Seq<(String, TypeId)>) -> Seq<(Seq<char>, TypeId)> {
    v.map_values(|p: (String, TypeId)| (p.0@, p.1))
}

/// The bindings of one scope: each name at most once, in insertion order.
#[derive(Debug)]
struct ScopeEntries {
    names: Vec<(String, Binding)>,
}

impl View for ScopeEntries {
    type V = Seq<(Seq<char>, Binding)>;

    closed spec fn view(&self) -> Seq<(Seq<char>, Binding)> {
        self.names@.map_values(|p: (String, Binding)| (p.0@, p.1))
    }
}

impl ScopeEntries {
    /// No name is bound twice.
    #[verifier::type_invariant]
    spec fn keys_distinct(self) -> bool {
        distinct_keys(self@)
    }

    fn new() -> (r: Self)
        ensures
            r@ == Seq::<(Seq<char>, Binding)>::empty(),
    {
        let r = ScopeEntries { names: Vec::new() };
        assert(r@ =~= Seq::<(Seq<char>, Binding)>::empty());
        r
    }

    fn len(&self) -> (n: usize)
        ensures
            n == self@.len(),
            distinct_keys(self@),
    {
        proof {
            use_type_invariant(self);
        }
        self.names.len()
    }

    fn at(&self, k: usize) -> (r: (&String, Binding))
        requires
            k < self@.len(),
        ensures
            r.0@ == self@[k as int].0,
            r.1 == self@[k as int].1,
    {
        (&self.names[k].0, self.names[k].1)
    }

    /// Position of `name` in the entries.
    fn position(&self, name: &str) -> (r: Option<usize>)
        ensures
            match r {
                Some(k) => k < self@.len() && key_index(self@, name@) == Some(k as int),
                None => key_index(self@, name@) is None,
            },
    {
        let ghost e = self@;
        let mut i: usize = 0;
        while i < self.names.len()
            invariant
                i <= self.names@.len(),
                e == self@,
                e.len() == self.names@.len(),
                forall|j: int| 0 <= j < i ==> #[trigger] e[j].0 != name@,
            decreases self.names@.len() - i,
        {
            if str_eq(self.names[i].0.as_str(), name) {
                proof {
                    lemma_key_index_at(e, name@, i as int);
                }
                return Some(i);
            }
            i = i + 1;
        }
        proof {
            lemma_key_index_bounds(e, name@);
        }
        None
    }

    fn bind(&mut self, name: String, b: Binding)
        ensures
            final(self)@ == set_entry(old(self)@, name@, b),
    {
        proof {
            use_type_invariant(&*self);
            lemma_set_entry_lookup(self@, name@, b, name@);
        }
        let ghost e = self@;
        let found = self.position(name.as_str());
        let mut names: Vec<(String, Binding)> = Vec::new();
        std::mem::swap(&mut names, &mut self.names);
        assert(names@.map_values(|p: (String, Binding)| (p.0@, p.1)) == e);
        match found {
            Some(k) => {
                names.set(k, (name, b));
                assert(names@.map_values(|p: (String, Binding)| (p.0@, p.1)) =~= e.update(
                    k as int,
                    (name@, b),
                ));
            },
            None => {
                names.push((name, b));
                assert(names@.map_values(|p: (String, Binding)| (p.0@, p.1)) =~= e.push((name@, b)));
            },
        }
        self.names = names;
    }
}

impl Clone for ScopeEntries {
    fn clone(&self) -> (r: Self)
        ensures
            r@ == self@,
    {
        proof {
            use_type_invariant(self);
        }
        let mut names: Vec<(String, Binding)> = Vec::new();
        let mut i: usize = 0;
        while i < self.names.len()
            invariant
                i <= self.names@.len(),
                names@.map_values(|p: (String, Binding)| (p.0@, p.1)) == self@.take(i as int),
            decreases self.names@.len() - i,
        {
            let ghost before = names@;
            names.push((self.names[i].0.clone(), self.names[i].1));
            assert(names@.map_values(|p: (String, Binding)| (p.0@, p.1)) =~= before.map_values(
                |p: (String, Binding)| (p.0@, p.1),
            ).push(self@[i as int]));
            assert(self@.take(i + 1) =~= self@.take(i as int).push(self@[i as int]));
            i = i + 1;
        }
        assert(self@.take(self@.len() as int) =~= self@);
        ScopeEntries { names }
    }
}

/// A single level of type scope.
#[derive(Clone, Debug)]
pub struct TypeScope {
    /// Optional parent scope; resolution walks up the chain.
    pub parent: Option<ScopeId>,
    /// Names bound in this scope, each at most once, in insertion order.
    entries: ScopeEntries,
}

impl View for TypeScope {
    type V = ScopeRecord;

    closed spec fn view(&self) -> ScopeRecord {
        ScopeRecord { parent: self.parent, entries: self.entries@ }
    }
}

impl TypeScope {
    pub fn new(parent: Option<ScopeId>) -> (s: Self)
        ensures
            s@.parent == parent,
            s@.entries == Seq::<(Seq<char>, Binding)>::empty(),
    {
        TypeScope { parent, entries: ScopeEntries::new() }
    }

    /// Insert a declared-type binding into this scope.
    pub fn insert(&mut self, name: String, type_id: TypeId)
        ensures
            final(self)@.parent == old(self)@.parent,
            final(self)@.entries == set_entry(old(self)@.entries, name@, Binding::Declared(type_id)),
    {
        self.entries.bind(name, Binding::Declared(type_id));
    }

    /// Insert a type-parameter binding into this scope.
    pub fn insert_type_param(&mut self, name: String)
        ensures
            final(self)@.parent == old(self)@.parent,
            final(self)@.entries == set_entry(old(self)@.entries, name@, Binding::TypeParam),
    {
        self.entries.bind(name, Binding::TypeParam);
    }

    /// Look up a declared-type binding in this scope only; a type-parameter
    /// binding gives `None`.
    pub fn get(&self, name: &str) -> (r: Option<TypeId>)
        ensures
            r == match lookup(self@.entries, name@) {
                Some(Binding::Declared(id)) => Some(id),
                _ => None::<TypeId>,
            },
    {
        match self.entries.position(name) {
            Some(k) => match self.entries.at(k).1 {
                Binding::Declared(id) => Some(id),
                Binding::TypeParam => None,
            },
            None => None,
        }
    }

    /// Look up any binding in this scope only.
    pub fn get_binding(&self, name: &str) -> (r: Option<Binding>)
        ensures
            r == lookup(self@.entries, name@),
            distinct_keys(self@.entries),
    {
        proof {
            use_type_invariant(&self.entries);
        }
        match self.entries.position(name) {
            Some(k) => Some(self.entries.at(k).1),
            None => None,
        }
    }

    /// The declared-type bindings of this scope, type parameters skipped:
    /// each declared name once, with its type, in insertion order.
    pub fn iter(&self) -> (r: Vec<(String, TypeId)>)
        ensures
            distinct_keys(self@.entries),
            id_pairs(r@) == declared_entries(self@.entries),
            forall|i: int, j: int|
                0 <= i < j < r@.len() ==> #[trigger] r@[i].0@ != #[trigger] r@[j].0@,
            forall|name: Seq<char>, id: TypeId|
                #![trigger id_pairs(r@).contains((name, id))]
                id_pairs(r@).contains((name, id)) <==> lookup(
                    self@.entries,
                    name,
                ) == Some(Binding::Declared(id)),
    {
        let ghost e = self@.entries;
        let n = self.entries.len();
        let mut r: Vec<(String, TypeId)> = Vec::new();
        let mut i: usize = 0;
        while i < n
            invariant
                i <= n,
                n == e.len(),
                e == self@.entries,
                id_pairs(r@) == declared_entries(
                    e.take(i as int),
                ),
            decreases n - i,
        {
            assert(e.take(i + 1).drop_last() =~= e.take(i as int));
            let (k, b) = self.entries.at(i);
            match b {
                Binding::Declared(id) => {
                    let ghost before = r@;
                    r.push((k.clone(), id));
                    assert(id_pairs(r@) =~= id_pairs(before).push((e[i as int].0, id)));
                },
                Binding::TypeParam => {},
            }
            i = i + 1;
        }
        assert(e.take(e.len() as int) =~= e);
        proof {
            let v = id_pairs(r@);
            lemma_declared_entries(e);
            assert forall|i: int, j: int| 0 <= i < j < r@.len() implies #[trigger] r@[i].0@
                != #[trigger] r@[j].0@ by {
                assert(v[i].0 == r@[i].0@ && v[j].0 == r@[j].0@);
            }
            assert forall|name: Seq<char>, id: TypeId|
                v.contains((name, id)) <==> lookup(e, name) == Some(Binding::Declared(id)) by {
                lemma_lookup_distinct(e, name, Binding::Declared(id));
            }
        }
        r
    }
}

/// Every parent link points to an earlier scope.
pub open spec fn arena_wf(scopes: Seq<ScopeRecord>) -> bool {
    forall|i: int|
        #![trigger scopes[i]]
        0 <= i < scopes.len() ==> match scopes[i].parent {
            Some(p) => 0 <= p.index() < i,
            None => true,
        }
}

/// The closest binding of `name` seen from `scope`: the scope's own
/// binding, else the one its parent resolves to.
pub open spec fn resolve_binding_spec(scopes: Seq<ScopeRecord>, scope: int, name: Seq<char>) -> Option<
    Binding,
>
    decreases scope,
{
    if !(0 <= scope < scopes.len()) {
        None
    } else {
        match lookup(scopes[scope].entries, name) {
            Some(b) => Some(b),
            None => match scopes[scope].parent {
                Some(p) => if 0 <= p.index() < scope {
                    resolve_binding_spec(scopes, p.index(), name)
                } else {
                    None
                },
                None => None,
            },
        }
    }
}

/// The declared type `name` resolves to from `scope`; a closer type
/// parameter shadows any outer declaration.
pub open spec fn resolve_spec(scopes: Seq<ScopeRecord>, scope: int, name: Seq<char>) -> Option<TypeId> {
    match resolve_binding_spec(scopes, scope, name) {
        Some(Binding::Declared(id)) => Some(id),
        _ => None,
    }
}

/// Arena that owns all scopes.
#[derive(Clone, Debug)]
pub struct ScopeArena {
    scopes: Vec<TypeScope>,
}

impl View for ScopeArena {
    type V = Seq<ScopeRecord>;

    closed spec fn view(&self) -> Seq<ScopeRecord> {
        self.scopes@.map_values(|s: TypeScope| s@)
    }
}

impl ScopeArena {
    /// Parent links only point backwards, so every resolution walk ends.
    pub open spec fn wf(&self) -> bool {
        arena_wf(self@)
    }

    /// An empty arena.
    pub fn new() -> (r: Self)
        ensures
            r@ == Seq::<ScopeRecord>::empty(),
            r.wf(),
    {
        let r = Self { scopes: Vec::new() };
        assert(r@ =~= Seq::<ScopeRecord>::empty());
        r
    }

    /// Create a root scope (no parent).
    pub fn create_root(&mut self) -> (id: ScopeId)
        requires
            old(self)@.len() < u32::MAX,
        ensures
            id.index() == old(self)@.len(),
            final(self)@ == old(self)@.push(
                ScopeRecord { parent: None, entries: Seq::<(Seq<char>, Binding)>::empty() },
            ),
            old(self).wf() ==> final(self).wf(),
    {
        let id = ScopeId(self.scopes.len() as u32);
        let ghost before = self@;
        self.scopes.push(TypeScope::new(None));
        assert(self@ =~= before.push(
            ScopeRecord { parent: None, entries: Seq::<(Seq<char>, Binding)>::empty() },
        ));
        id
    }

    /// Create a child scope of `parent`.
    pub fn create_child(&mut self, parent: ScopeId) -> (id: ScopeId)
        requires
            old(self)@.len() < u32::MAX,
            parent.index() < old(self)@.len(),
        ensures
            id.index() == old(self)@.len(),
            final(self)@ == old(self)@.push(
                ScopeRecord { parent: Some(parent), entries: Seq::<(Seq<char>, Binding)>::empty() },
            ),
            old(self).wf() ==> final(self).wf(),
    {
        let id = ScopeId(self.scopes.len() as u32);
        let ghost before = self@;
        self.scopes.push(TypeScope::new(Some(parent)));
        assert(self@ =~= before.push(
            ScopeRecord { parent: Some(parent), entries: Seq::<(Seq<char>, Binding)>::empty() },
        ));
        id
    }

    /// The scope `id` designates.
    pub fn get(&self, id: ScopeId) -> (r: &TypeScope)
        requires
            id.index() < self@.len(),
        ensures
            r@ == self@[id.index()],
            distinct_keys(r@.entries),
    {
        let r = &self.scopes[id.0 as usize];
        proof {
            use_type_invariant(&r.entries);
        }
        r
    }

    /// Mutable access to the scope `id` designates.
    pub fn get_mut(&mut self, id: ScopeId) -> (r: &mut TypeScope)
        requires
            id.index() < old(self)@.len(),
        ensures
            r@ == old(self)@[id.index()],
            final(self)@ == old(self)@.update(id.index(), final(r)@),
    {
        let ghost before = self@;
        let r = &mut self.scopes[id.0 as usize];
        r
    }

    /// Insert a declared-type binding into the given scope.
    pub fn insert(&mut self, scope: ScopeId, name: String, type_id: TypeId)
        requires
            scope.index() < old(self)@.len(),
        ensures
            final(self)@ == old(self)@.update(
                scope.index(),
                ScopeRecord {
                    parent: old(self)@[scope.index()].parent,
                    entries: set_entry(
                        old(self)@[scope.index()].entries,
                        name@,
                        Binding::Declared(type_id),
                    ),
                },
            ),
            old(self).wf() ==> final(self).wf(),
            resolve_binding_spec(final(self)@, scope.index(), name@) == Some(
                Binding::Declared(type_id),
            ),
            resolve_spec(final(self)@, scope.index(), name@) == Some(type_id),
    {
        let ghost s0 = self@;
        self.get_mut(scope).insert(name, type_id);
        proof {
            law_insert_then_resolve(s0, scope.index(), name@, Binding::Declared(type_id));
        }
    }

    /// Insert a type-parameter binding into the given scope.
    pub fn insert_type_param(&mut self, scope: ScopeId, name: String)
        requires
            scope.index() < old(self)@.len(),
        ensures
            final(self)@ == old(self)@.update(
                scope.index(),
                ScopeRecord {
                    parent: old(self)@[scope.index()].parent,
                    entries: set_entry(old(self)@[scope.index()].entries, name@, Binding::TypeParam),
                },
            ),
            old(self).wf() ==> final(self).wf(),
            resolve_binding_spec(final(self)@, scope.index(), name@) == Some(Binding::TypeParam),
            resolve_spec(final(self)@, scope.index(), name@) is None,
    {
        let ghost s0 = self@;
        self.get_mut(scope).insert_type_param(name);
        proof {
            law_insert_then_resolve(s0, scope.index(), name@, Binding::TypeParam);
        }
    }

    /// Resolve a name to a declared type by walking up the scope chain;
    /// `None` when the closest binding is a type parameter or none exists.
    pub fn resolve(&self, scope: ScopeId, name: &str) -> (r: Option<TypeId>)
        requires
            self.wf(),
            scope.index() < self@.len(),
        ensures
            r == resolve_spec(self@, scope.index(), name@),
    {
        match self.resolve_binding(scope, name) {
            Some(Binding::Declared(id)) => Some(id),
            _ => None,
        }
    }

    /// Resolve a name to its closest binding by walking up the scope chain.
    pub fn resolve_binding(&self, scope: ScopeId, name: &str) -> (r: Option<Binding>)
        requires
            self.wf(),
            scope.index() < self@.len(),
        ensures
            r == resolve_binding_spec(self@, scope.index(), name@),
        decreases scope.index(),
    {
        let s = self.get(scope);
        if let Some(b) = s.get_binding(name) {
            return Some(b);
        }
        if let Some(parent) = s.parent {
            assert(self@[scope.index()].parent == Some(parent));
            return self.resolve_binding(parent, name);
        }
        None
    }
}

impl Default for ScopeArena {
    fn default() -> (r: Self)
        ensures
            r@ == Seq::<ScopeRecord>::empty(),
    {
        Self::new()
    }
}

/// An unresolved import, kept in a side table until import resolution.
#[derive(Clone, Debug)]
pub struct PendingImport {
    /// The scope that contains this import.
    pub scope: ScopeId,
    /// The local name in the importing scope.
    pub local_name: String,
    /// The module specifier from the import statement.
    pub from_module: String,
    /// The original name in the source module.
    pub original_name: String,
}


// ---------------------------------------------------------------------
// Laws
// ---------------------------------------------------------------------

/// `scopes` with `name -> b` recorded in scope `s`, as `ScopeArena::insert`
/// and `ScopeArena::insert_type_param` leave it.
pub open spec fn with_binding(scopes: Seq<ScopeRecord>, s: int, name: Seq<char>, b: Binding) -> Seq<
    ScopeRecord,
> {
    scopes.update(
        s,
        ScopeRecord { parent: scopes[s].parent, entries: set_entry(scopes[s].entries, name, b) },
    )
}

/// A name bound in a scope resolves, from that scope, to its binding:
/// what an insertion wrote is what resolution reads back.
pub proof fn law_insert_then_resolve(scopes: Seq<ScopeRecord>, s: int, name: Seq<char>, b: Binding)
    requires
        0 <= s < scopes.len(),
    ensures
        resolve_binding_spec(with_binding(scopes, s, name, b), s, name) == Some(b),
        resolve_spec(with_binding(scopes, s, name, b), s, name) == match b {
            Binding::Declared(id) => Some(id),
            Binding::TypeParam => None,
        },
{
    lemma_set_entry_lookup(scopes[s].entries, name, b, name);
}

/// Recording one name changes how no other name resolves, from any
/// scope.
pub proof fn law_insert_keeps_other_names(
    scopes: Seq<ScopeRecord>,
    s: int,
    name: Seq<char>,
    b: Binding,
    other: Seq<char>,
    from: int,
)
    requires
        0 <= s < scopes.len(),
        other != name,
    ensures
        resolve_binding_spec(with_binding(scopes, s, name, b), from, other)
            == resolve_binding_spec(scopes, from, other),
    decreases from,
{
    let new = with_binding(scopes, s, name, b);
    if 0 <= from < scopes.len() {
        if from == s {
            lemma_set_entry_lookup(scopes[s].entries, name, b, other);
        }
        assert(new[from].parent == scopes[from].parent);
        match scopes[from].parent {
            Some(p) => {
                if 0 <= p.index() < from {
                    law_insert_keeps_other_names(scopes, s, name, b, other, p.index());
                }
            },
            None => {},
        }
    }
}

/// A scope that does not bind a name resolves it as its parent does.
pub proof fn law_child_inherits(scopes: Seq<ScopeRecord>, c: int, name: Seq<char>)
    requires
        arena_wf(scopes),
        0 <= c < scopes.len(),
        scopes[c].parent is Some,
        lookup(scopes[c].entries, name) is None,
    ensures
        resolve_binding_spec(scopes, c, name) == resolve_binding_spec(
            scopes,
            scopes[c].parent->0.index(),
            name,
        ),
{
}

/// A binding in a scope shadows every binding of the same name in its
/// ancestors: a type parameter hides an outer declaration.
pub proof fn law_closest_binding_wins(scopes: Seq<ScopeRecord>, c: int, name: Seq<char>)
    requires
        0 <= c < scopes.len(),
        lookup(scopes[c].entries, name) is Some,
    ensures
        resolve_binding_spec(scopes, c, name) == lookup(scopes[c].entries, name),
{
}

/// Appending a scope changes no resolution from the scopes already there.
proof fn lemma_push_keeps_resolution(scopes: Seq<ScopeRecord>, r: ScopeRecord, from: int, name: Seq<char>)
    requires
        0 <= from < scopes.len(),
    ensures
        resolve_binding_spec(scopes.push(r), from, name) == resolve_binding_spec(scopes, from, name),
    decreases from,
{
    assert(scopes.push(r)[from] == scopes[from]);
    match scopes[from].parent {
        Some(p) => {
            if 0 <= p.index() < from {
                lemma_push_keeps_resolution(scopes, r, p.index(), name);
            }
        },
        None => {},
    }
}

/// A fresh child scope resolves every name as its parent does, and
/// creating it changes no resolution from the scopes already there.
pub proof fn law_new_child_sees_parent(scopes: Seq<ScopeRecord>, parent: ScopeId, name: Seq<char>, from: int)
    requires
        parent.index() < scopes.len(),
        0 <= from < scopes.len(),
    ensures
        resolve_binding_spec(
            scopes.push(ScopeRecord { parent: Some(parent), entries: Seq::empty() }),
            scopes.len() as int,
            name,
        ) == resolve_binding_spec(scopes, parent.index(), name),
        resolve_binding_spec(
            scopes.push(ScopeRecord { parent: Some(parent), entries: Seq::empty() }),
            from,
            name,
        ) == resolve_binding_spec(scopes, from, name),
{
    let r = ScopeRecord { parent: Some(parent), entries: Seq::<(Seq<char>, Binding)>::empty() };
    lemma_push_keeps_resolution(scopes, r, parent.index(), name);
    lemma_push_keeps_resolution(scopes, r, from, name);
    assert(lookup(r.entries, name) is None);
}

} // verus!
