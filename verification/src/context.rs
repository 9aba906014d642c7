//! The global arena of declarations and scopes, and the view of it that
//! code generation works against.

use vstd::prelude::*;

use crate::ir::TypeDeclaration;
use crate::scope::{Binding, ScopeArena, ScopeId, ScopeRecord};

verus! {

/// Index of a declaration in the global type arena.
#[derive(Clone, Copy, Debug, PartialEq, Eq, Hash, Structural)]
pub struct TypeId(pub u32);

/// Every declared binding of every scope names a declaration of `types`.
pub open spec fn bindings_in_range(scopes: Seq<ScopeRecord>, n_types: nat) -> bool {
    forall|s: int, k: int|
        0 <= s < scopes.len() && 0 <= k < scopes[s].entries.len() ==> match (
        #[trigger] scopes[s].entries[k]).1 {
            Binding::Declared(id) => id.0 < n_types,
            Binding::TypeParam => true,
        }
}

/// Owner of all declarations and scopes of a run.
#[derive(Debug)]
pub struct GlobalContext {
    /// All scopes.
    pub scopes: ScopeArena,
    /// All declarations, addressed by `TypeId`.
    pub types: Vec<TypeDeclaration>,
}

impl GlobalContext {
    /// Scopes are well formed and every declared binding names a declaration.
    pub open spec fn wf(&self) -> bool {
        &&& self.scopes.wf()
        &&& bindings_in_range(self.scopes@, self.types@.len())
    }

    /// An empty context.
    pub fn new() -> (r: Self)
        ensures
            r.wf(),
            r.scopes@.len() == 0,
            r.types@.len() == 0,
    {
        GlobalContext { scopes: ScopeArena::new(), types: Vec::new() }
    }

    /// Create a root scope.
    pub fn create_root_scope(&mut self) -> (id: ScopeId)
        requires
            old(self).scopes@.len() < u32::MAX,
        ensures
            id.index() == old(self).scopes@.len(),
            final(self).scopes@ == old(self).scopes@.push(
                ScopeRecord { parent: None, entries: Seq::empty() },
            ),
            final(self).types@ == old(self).types@,
            old(self).wf() ==> final(self).wf(),
    {
        let id = self.scopes.create_root();
        proof {
            let s = self.scopes@;
            if old(self).wf() {
                assert forall|i: int, k: int|
                    0 <= i < s.len() && 0 <= k < s[i].entries.len() implies match (
                    #[trigger] s[i].entries[k]).1 {
                    Binding::Declared(t) => t.0 < self.types@.len(),
                    Binding::TypeParam => true,
                } by {
                    if i < s.len() - 1 {
                        assert(s[i] == old(self).scopes@[i]);
                    }
                }
            }
        }
        id
    }

    /// Add a declaration to the arena.
    pub fn insert_type(&mut self, decl: TypeDeclaration) -> (id: TypeId)
        requires
            old(self).types@.len() < u32::MAX,
        ensures
            id.0 == old(self).types@.len(),
            final(self).types@ == old(self).types@.push(decl),
            final(self).scopes@ == old(self).scopes@,
            old(self).wf() ==> final(self).wf(),
    {
        let id = TypeId(self.types.len() as u32);
        self.types.push(decl);
        id
    }

    /// The declaration `id` designates.
    pub fn get_type(&self, id: TypeId) -> (r: &TypeDeclaration)
        requires
            id.0 < self.types@.len(),
        ensures
            *r == self.types@[id.0 as int],
    {
        &self.types[id.0 as usize]
    }
}

/// What code generation resolves names against.
pub struct CodegenContext<'a> {
    pub gctx: &'a GlobalContext,
    /// The scope code is being generated in.
    pub scope: ScopeId,
}

impl<'a> CodegenContext<'a> {
    /// A context over `gctx` with nothing else configured.
    pub fn empty(gctx: &'a GlobalContext, scope: ScopeId) -> (r: Self)
        ensures
            *r.gctx == *gctx,
            r.scope == scope,
    {
        CodegenContext { gctx, scope }
    }
}

} // verus!
