//! Helpers of declaration population: building a declaration in its
//! context, finding its doc comment, and finding a namespace's scope.

use vstd::prelude::*;
use crate::docs::{jsdoc_info, jsdoc_text, throws_of, DocComments};
use crate::ctx::ParseCtx;
use crate::ir::{
    opt_str_view, DiscriminatedUnionDecl, InterfaceClassification, InterfaceDecl, Member,
    ModuleContext, Throws, ThrowsV, TypeDeclaration, TypeKind, TypeRef,
};
use crate::literal_union::{
    branches_view, detect_discriminators, discriminators_spec, members_view, merge_member_branches,
    merge_spec, names_view,
};
use crate::scope::{resolve_spec, ScopeArena, ScopeId};

verus! {

/// A copy of a module context.
pub fn copy_module_context(m: &ModuleContext) -> (r: ModuleContext)
    ensures
        r == *m,
{
    match m {
        ModuleContext::Global => ModuleContext::Global,
        ModuleContext::Module(s) => ModuleContext::Module(s.clone()),
    }
}

/// Per-declaration context: where the declaration lives and whether it
/// is exported.
pub struct DeclCtx<'a> {
    pub module_context: &'a ModuleContext,
    pub export_span_start: Option<u32>,
    pub scope: ScopeId,
    pub exported: bool,
}

impl<'a> DeclCtx<'a> {
    /// Build a `TypeDeclaration` with this context's module, scope and
    /// exported fields.
    pub fn decl(&self, kind: TypeKind, doc: Option<String>) -> (r: TypeDeclaration)
        ensures
            r.kind == kind,
            r.module_context == *self.module_context,
            r.doc == doc,
            r.scope_id == self.scope,
            r.exported == self.exported,
    {
        TypeDeclaration {
            kind,
            module_context: copy_module_context(self.module_context),
            doc,
            scope_id: self.scope,
            exported: self.exported,
        }
    }
}

/// The rendered doc comment attached at `span`.
pub open spec fn doc_at(docs: &DocComments, span: u32) -> Option<Seq<char>> {
    match docs.attached_text(span) {
        Some(t) => Some(jsdoc_text(t)),
        None => None,
    }
}

/// The doc lookup falls back from the `export` span to the declaration's
/// own span: both comments it may read lie on character boundaries.
pub open spec fn lookup_readable(docs: &DocComments, export_span_start: Option<u32>, inner: u32) -> bool {
    match export_span_start {
        Some(s) => docs.readable_at(s) && (docs.attached_text(s) is None ==> docs.readable_at(
            inner,
        )),
        None => docs.readable_at(inner),
    }
}

/// The span whose comment documents the declaration: the `export` one
/// when it has a comment, else the declaration's own.
pub open spec fn doc_span(docs: &DocComments, export_span_start: Option<u32>, inner: u32) -> u32 {
    match export_span_start {
        Some(s) => if docs.attached_text(s) is Some {
            s
        } else {
            inner
        },
        None => inner,
    }
}

/// The doc comment of a declaration: the one attached to its `export`
/// span, else the one attached to its own span.
pub fn lookup_doc(docs: &DocComments, export_span_start: Option<u32>, inner_span_start: u32) -> (r: Option<String>)
    requires
        lookup_readable(docs, export_span_start, inner_span_start),
    ensures
        opt_str_view(r) == doc_at(docs, doc_span(docs, export_span_start, inner_span_start)),
{
    let first = match export_span_start {
        Some(s) => docs.for_span(s),
        None => None,
    };
    match first {
        Some(d) => Some(d),
        None => docs.for_span(inner_span_start),
    }
}

/// Like [`lookup_doc`], with the `@throws` information of the same
/// comment lifted into a [`Throws`].
pub fn lookup_callable_doc(docs: &DocComments, export_span_start: Option<u32>, inner_span_start: u32) -> (r: (Option<String>, Throws))
    requires
        lookup_readable(docs, export_span_start, inner_span_start),
    ensures
        match docs.attached_text(doc_span(docs, export_span_start, inner_span_start)) {
            Some(t) => opt_str_view(r.0) == Some(jsdoc_text(t)) && r.1@ == throws_of(
                jsdoc_info(t).0,
                jsdoc_info(t).1,
            ),
            None => r.0 is None && r.1@ == ThrowsV::Unannotated,
        },
{
    let first = match export_span_start {
        Some(s) => docs.info_for_span(s),
        None => None,
    };
    let info = match first {
        Some(x) => Some(x),
        None => docs.info_for_span(inner_span_start),
    };
    match info {
        Some((doc, info)) => {
            let t = info.throws();
            (Some(doc), t)
        },
        None => (None, Throws::Unannotated),
    }
}

/// The child scope that the first pass made for namespace `ns_name`,
/// seen from `parent_scope`; `parent_scope` itself when the name does
/// not resolve to a namespace.
pub fn resolve_namespace_scope(
    scopes: &ScopeArena,
    type_arena: &[TypeDeclaration],
    ns_name: &str,
    parent_scope: ScopeId,
) -> (r: ScopeId)
    requires
        scopes.wf(),
        parent_scope.index() < scopes@.len(),
        match resolve_spec(scopes@, parent_scope.index(), ns_name@) {
            Some(id) => id.0 < type_arena@.len(),
            None => true,
        },
    ensures
        r == match resolve_spec(scopes@, parent_scope.index(), ns_name@) {
            Some(id) => match type_arena@[id.0 as int].kind {
                TypeKind::Namespace(ns) => ns.child_scope,
                _ => parent_scope,
            },
            None => parent_scope,
        },
{
    if let Some(type_id) = scopes.resolve(parent_scope, ns_name) {
        let decl = &type_arena[type_id.0 as usize];
        if let TypeKind::Namespace(ns) = &decl.kind {
            return ns.child_scope;
        }
    }
    parent_scope
}

/// The declaration wrapping a synthesized interface, in the module and
/// scope of the declaration it was synthesized for.
pub open spec fn synth_decl(iface: InterfaceDecl, module_context: ModuleContext, scope: ScopeId) -> TypeDeclaration {
    TypeDeclaration {
        kind: TypeKind::Interface(iface),
        module_context,
        doc: None,
        scope_id: scope,
        exported: true,
    }
}

/// Take the interfaces synthesized while converting one declaration,
/// each wrapped as an exported declaration in that declaration's module
/// context and scope, in order; `synth` is left empty.
pub fn drain_synth(synth: &mut Vec<InterfaceDecl>, module_context: &ModuleContext, scope: ScopeId) -> (r: Vec<TypeDeclaration>)
    ensures
        final(synth)@.len() == 0,
        r@ == old(synth)@.map_values(
            |iface: InterfaceDecl| synth_decl(iface, *module_context, scope),
        ),
{
    let ghost start = synth@;
    let mut items: Vec<InterfaceDecl> = Vec::new();
    std::mem::swap(&mut items, synth);
    let mut out: Vec<TypeDeclaration> = Vec::new();
    let ghost n = start.len();
    while items.len() > 0
        invariant
            n == start.len(),
            synth@.len() == 0,
            out@.len() + items@.len() == n,
            items@ == start.skip(out@.len() as int),
            out@ == start.take(out@.len() as int).map_values(
                |iface: InterfaceDecl| synth_decl(iface, *module_context, scope),
            ),
        decreases items@.len(),
    {
        let ghost k: int = out@.len() as int;
        let iface = items.remove(0);
        assert(iface == start[k as int]);
        out.push(
            TypeDeclaration {
                kind: TypeKind::Interface(iface),
                module_context: copy_module_context(module_context),
                doc: None,
                scope_id: scope,
                exported: true,
            },
        );
        assert(items@ =~= start.skip(k + 1));
        assert(out@ =~= start.take(k + 1).map_values(
            |iface: InterfaceDecl| synth_decl(iface, *module_context, scope),
        ));
    }
    assert(start.take(n as int) =~= start);
    out
}


/// The declaration a `type Name = {..} | {..} | ...` alias becomes, given
/// the members of each object-literal branch (in source order): a
/// discriminated union when the branches share literal-typed
/// discriminator properties, otherwise an interface holding the merged
/// members, classified as `classification` (what the interface
/// classifier gives those merged members). Neither has type parameters;
/// both live in `body_scope`. The alias name is recorded as in use.
pub fn alias_union_decl(
    alias_name: &str,
    branches: Vec<Vec<Member>>,
    body_scope: ScopeId,
    classification: InterfaceClassification,
    ctx: &mut ParseCtx,
) -> (r: TypeKind)
    ensures
        names_view(final(ctx).used_type_names@) == names_view(old(ctx).used_type_names@).push(
            alias_name@,
        ),
        final(ctx).scopes == old(ctx).scopes,
        final(ctx).docs == old(ctx).docs,
        final(ctx).synth == old(ctx).synth,
        match r {
            TypeKind::DiscriminatedUnion(d) => {
                &&& discriminators_spec(branches_view(branches@)).len() > 0
                &&& d.name@ == alias_name@
                &&& d.js_name@ == alias_name@
                &&& d.type_params@.len() == 0
                &&& d.branches@ == branches@
                &&& members_view(d.members@) == merge_spec(branches_view(branches@))
                &&& names_view(d.discriminators@) == discriminators_spec(branches_view(branches@))
                &&& d.body_scope == body_scope
            },
            TypeKind::Interface(i) => {
                &&& discriminators_spec(branches_view(branches@)).len() == 0
                &&& i.name@ == alias_name@
                &&& i.js_name@ == alias_name@
                &&& i.type_params@.len() == 0
                &&& i.extends@.len() == 0
                &&& members_view(i.members@) == merge_spec(branches_view(branches@))
                &&& i.classification == classification
                &&& i.body_scope == body_scope
            },
            _ => false,
        },
{
    let merged = merge_member_branches(branches.as_slice());
    let ghost u0 = ctx.used_type_names@;
    ctx.used_type_names.push(alias_name.to_string());
    assert(names_view(ctx.used_type_names@) =~= names_view(u0).push(alias_name@));
    let discriminators = detect_discriminators(branches.as_slice());
    if discriminators.len() > 0 {
        TypeKind::DiscriminatedUnion(
            DiscriminatedUnionDecl {
                name: alias_name.to_string(),
                js_name: alias_name.to_string(),
                type_params: Vec::new(),
                branches,
                members: merged,
                discriminators,
                body_scope,
            },
        )
    } else {
        TypeKind::Interface(
            InterfaceDecl {
                name: alias_name.to_string(),
                js_name: alias_name.to_string(),
                type_params: Vec::new(),
                extends: Vec::new(),
                members: merged,
                classification,
                body_scope,
            },
        )
    }
}


// ---------------------------------------------------------------------
// Variable declarations
// ---------------------------------------------------------------------

/// Whether a variable declarator becomes a class: it merged with an
/// interface of the same name, or it lives in a module and has the
/// constructor shape (`is_ctor_var`, what the constructor-shape test
/// says of it); either way its annotation must be an object type
/// literal.
pub fn var_promotes_to_class(
    merged_with_iface: bool,
    module_context: &ModuleContext,
    is_ctor_var: bool,
    annotation: &Option<crate::types::TsType>,
) -> (r: bool)
    ensures
        r == ((merged_with_iface || (module_context is Module && is_ctor_var))
            && annotation matches Some(crate::types::TsType::TypeLiteral)),
{
    let in_module = match module_context {
        ModuleContext::Module(_) => true,
        ModuleContext::Global => false,
    };
    let is_literal = match annotation {
        Some(crate::types::TsType::TypeLiteral) => true,
        _ => false,
    };
    (merged_with_iface || (in_module && is_ctor_var)) && is_literal
}

/// The class a constructor-shaped variable becomes: named by its export
/// rename when one was recorded, else by its own name; its members are
/// the constructor (when the literal has one) followed by the static
/// members; no type parameters, parents or interfaces; its body scope is
/// the enclosing scope.
pub fn var_class_kind(
    name: String,
    export_rename: Option<String>,
    ctor: Option<crate::ir::ConstructorMember>,
    static_members: Vec<Member>,
    module_context: &ModuleContext,
    scope: ScopeId,
) -> (r: TypeKind)
    ensures
        r matches TypeKind::Class(c) && {
            let public = match export_rename {
                Some(n) => n@,
                None => name@,
            };
            &&& c.name@ == public
            &&& c.js_name@ == public
            &&& c.type_params@.len() == 0
            &&& c.extends is None
            &&& c.implements@.len() == 0
            &&& !c.is_abstract
            &&& members_view(c.members@) == match ctor {
                Some(k) => seq![Member::Constructor(k)@],
                None => Seq::<crate::ir::MemberV>::empty(),
            } + members_view(static_members@)
            &&& c.type_module_context == *module_context
            &&& c.body_scope == scope
        },
{
    let mut members: Vec<Member> = Vec::new();
    let ghost head = if ctor is Some {
        seq![Member::Constructor(ctor->0)@]
    } else {
        Seq::<crate::ir::MemberV>::empty()
    };
    match ctor {
        Some(c) => {
            members.push(Member::Constructor(c));
        },
        None => {},
    }
    assert(members_view(members@) =~= head);
    let ghost before = members@;
    let mut statics = static_members;
    members.append(&mut statics);
    assert(members_view(members@) =~= members_view(before) + members_view(static_members@));
    let public_name = match export_rename {
        Some(n) => n,
        None => name,
    };
    TypeKind::Class(
        crate::ir::ClassDecl {
            name: public_name.clone(),
            js_name: public_name,
            type_params: Vec::new(),
            extends: None,
            implements: Vec::new(),
            is_abstract: false,
            members,
            type_module_context: copy_module_context(module_context),
            body_scope: scope,
        },
    )
}

/// The declaration a variable declarator that is not a class becomes:
/// a function when its annotation is a function type (named in snake
/// case, with that type's parameters and return type, no type parameters,
/// overloads or `@throws`, its body scope the enclosing scope), otherwise
/// a variable of the annotated type (`any` when there is none).
pub fn var_binding_kind(
    name: &str,
    annotation: &Option<crate::types::TsType>,
    is_const: bool,
    scope: ScopeId,
    ctx: &mut ParseCtx,
) -> (r: TypeKind)
    requires
        scope.index() < old(ctx).scopes@.len(),
        old(ctx).scopes@.len() + crate::types::opt_scopes(*annotation) < u32::MAX,
    ensures
        crate::ctx::ctx_grows(
            *old(ctx),
            *final(ctx),
            crate::types::opt_scopes(*annotation),
            crate::types::opt_new_scopes(*annotation, scope, old(ctx).scopes@.len() as int),
        ),
        match crate::members::annotation_ty(*annotation) {
            crate::ir::TyV::Function(ps, ret) => r matches TypeKind::Function(f) && {
                &&& f.name@ == crate::naming::snake_spec(name@)
                &&& f.js_name@ == name@
                &&& f.type_params@.len() == 0
                &&& crate::ir::params_view(f.params@) == ps
                &&& f.return_type@ == *ret
                &&& f.overloads@.len() == 0
                &&& f.throws == Throws::Unannotated
                &&& f.body_scope == scope
            },
            t => r matches TypeKind::Variable(v) && {
                &&& v.name@ == crate::naming::snake_spec(name@)
                &&& v.js_name@ == name@
                &&& v.type_ref@ == t
                &&& v.is_const == is_const
            },
        },
{
    let type_ref = crate::members::convert_annotation(annotation, scope, ctx);
    match type_ref {
        TypeRef::Function(sig) => {
            TypeKind::Function(
                crate::ir::FunctionDecl {
                    name: crate::naming::to_snake_case(name),
                    js_name: name.to_string(),
                    type_params: Vec::new(),
                    params: sig.params,
                    return_type: *sig.return_type,
                    overloads: Vec::new(),
                    throws: Throws::Unannotated,
                    body_scope: scope,
                },
            )
        },
        _ => {
            TypeKind::Variable(
                crate::ir::VariableDecl {
                    name: crate::naming::to_snake_case(name),
                    js_name: name.to_string(),
                    type_ref,
                    is_const,
                },
            )
        },
    }
}

// ---------------------------------------------------------------------
// Export specifiers
// ---------------------------------------------------------------------

/// The declaration an export specifier `export { local as exported }`
/// (re-exported from `source` when it has one) adds: none for a plain
/// `export { X }` of a local name, none when `local` is a
/// constructor-shaped variable already published as a class under
/// `exported` (`promoted_under_exported`, what the type registry records
/// of it), otherwise an exported alias `exported = local` with no type
/// parameters and no doc, pinned to the enclosing scope.
pub fn export_specifier_alias(
    local: &str,
    exported: &str,
    source: &Option<String>,
    promoted_under_exported: bool,
    module_context: &ModuleContext,
    scope: ScopeId,
) -> (r: Option<TypeDeclaration>)
    ensures
        (source is None && (exported@ == local@ || promoted_under_exported)) ==> r is None,
        !(source is None && (exported@ == local@ || promoted_under_exported)) ==> (r matches Some(d)
            && {
            &&& d.kind matches TypeKind::TypeAlias(a) && {
                &&& a.name@ == exported@
                &&& a.type_params@.len() == 0
                &&& a.target@ == crate::docs::ident_ty(local@)
                &&& opt_str_view(a.from_module) == opt_str_view(*source)
                &&& a.body_scope == scope
            }
            &&& d.module_context == *module_context
            &&& d.doc is None
            &&& d.scope_id == scope
            &&& d.exported
        }),
{
    let local_only = match source {
        None => true,
        Some(_) => false,
    };
    if local_only && (crate::text::str_eq(exported, local) || promoted_under_exported) {
        return None;
    }
    let from_module = match source {
        Some(m) => Some(m.clone()),
        None => None,
    };
    Some(
        TypeDeclaration {
            kind: TypeKind::TypeAlias(
                crate::ir::TypeAliasDecl {
                    name: exported.to_string(),
                    type_params: Vec::new(),
                    target: TypeRef::ident(local),
                    from_module,
                    body_scope: scope,
                },
            ),
            module_context: copy_module_context(module_context),
            doc: None,
            scope_id: scope,
            exported: true,
        },
    )
}

} // verus!
