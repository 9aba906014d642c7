//! Shared parse-time state.
//!
//! Bundles what every type and member converter threads along: the scope
//! arena (for lexical resolution and child-scope creation), the doc
//! comments, the type names in use (for naming synthesized interfaces)
//! and the interfaces synthesized so far.

use vstd::prelude::*;
use crate::docs::DocComments;
use crate::ir::InterfaceDecl;
use crate::scope::{ScopeArena, ScopeRecord};
use crate::types::grows;

verus! {

/// Ambient parse-time state of one file: the scope arena, the doc
/// comments, the type names in use, and the interfaces synthesized along
/// the way.
pub struct ParseCtx<'a> {
    pub scopes: ScopeArena,
    pub docs: &'a DocComments<'a>,
    pub used_type_names: Vec<String>,
    pub synth: Vec<InterfaceDecl>,
}

/// `ctx` after converting types that append the `n` scopes `added`:
/// everything but the arena as it was.
pub open spec fn ctx_grows(old: ParseCtx, new: ParseCtx, n: nat, added: Seq<ScopeRecord>) -> bool {
    &&& grows(old.scopes@, new.scopes@, n)
    &&& new.scopes@ == old.scopes@ + added
    &&& new.docs == old.docs
    &&& new.used_type_names == old.used_type_names
    &&& new.synth == old.synth
}

} // verus!
