use ts_gen::ctx::ParseCtx;
use ts_gen::ir::{ConstructorMember, Member};
use ts_gen::populate::{var_binding_kind, var_class_kind, var_promotes_to_class};
use ts_gen::types::{TsFormalParameters, TsFunctionType, TsType};
use ts_gen::populate::export_specifier_alias;
use ts_gen::docs::{Comment, DocComments};
use ts_gen::ir::{InterfaceClassification, InterfaceDecl, ModuleContext, NamespaceDecl, Throws, TypeDeclaration, TypeKind, TypeRef};
use ts_gen::populate::{copy_module_context, drain_synth, lookup_callable_doc, lookup_doc, resolve_namespace_scope, DeclCtx};
use ts_gen::scope::ScopeArena;
use ts_gen::context::TypeId;

#[test]
fn decl_carries_the_context() {
    let mut arena = ScopeArena::new();
    let root = arena.create_root();
    let module = ModuleContext::Module("cloudflare:sockets".to_string());
    let dcx = DeclCtx { module_context: &module, export_span_start: None, scope: root, exported: true };
    let d = dcx.decl(
        TypeKind::Namespace(NamespaceDecl { name: "N".into(), declarations: vec![], child_scope: root }),
        Some("doc".into()),
    );
    assert_eq!(d.module_context, module);
    assert_eq!(d.doc.as_deref(), Some("doc"));
    assert_eq!(d.scope_id, root);
    assert!(d.exported);
    assert_eq!(copy_module_context(&ModuleContext::Global), ModuleContext::Global);
}

#[test]
fn doc_lookup_prefers_the_export_span() {
    let source = "/** outer */ export /** inner\n * @throws {E} bad */ function f() {}";
    let comments = vec![
        Comment { attached_to: 13, jsdoc: true, content_start: 3, content_end: 10 },
        Comment { attached_to: 49, jsdoc: true, content_start: 23, content_end: 45 },
    ];
    let docs = DocComments::new(&comments, source);
    assert_eq!(lookup_doc(&docs, Some(13), 49), Some("outer".to_string()));
    assert_eq!(lookup_doc(&docs, Some(99), 49).as_deref().map(|d| d.starts_with("inner")), Some(true));
    assert_eq!(lookup_doc(&docs, None, 7), None);
    let (doc, throws) = lookup_callable_doc(&docs, None, 49);
    assert!(doc.unwrap().contains("## Errors"));
    assert_eq!(throws, Throws::Type(TypeRef::ident("E")));
    let (doc, throws) = lookup_callable_doc(&docs, None, 5);
    assert!(doc.is_none());
    assert_eq!(throws, Throws::Unannotated);
}

#[test]
fn namespace_scope_falls_back_to_parent() {
    let mut arena = ScopeArena::new();
    let root = arena.create_root();
    let child = arena.create_child(root);
    arena.insert(root, "N".to_string(), TypeId(0));
    arena.insert(root, "X".to_string(), TypeId(1));
    let types = vec![
        TypeDeclaration {
            kind: TypeKind::Namespace(NamespaceDecl { name: "N".into(), declarations: vec![], child_scope: child }),
            module_context: ModuleContext::Global,
            doc: None,
            scope_id: root,
            exported: false,
        },
        TypeDeclaration {
            kind: TypeKind::Namespace(NamespaceDecl { name: "X".into(), declarations: vec![], child_scope: root }),
            module_context: ModuleContext::Global,
            doc: None,
            scope_id: root,
            exported: false,
        },
    ];
    assert_eq!(resolve_namespace_scope(&arena, &types, "N", root), child);
    assert_eq!(resolve_namespace_scope(&arena, &types, "Missing", root), root);
}

#[test]
fn drain_synth_wraps_and_empties() {
    let mut arena = ScopeArena::new();
    let root = arena.create_root();
    let mk = |n: &str| InterfaceDecl {
        name: n.to_string(),
        js_name: n.to_string(),
        type_params: vec![],
        extends: vec![],
        members: vec![],
        classification: InterfaceClassification::ClassLike,
        body_scope: root,
    };
    let mut synth = vec![mk("A"), mk("B")];
    let out = drain_synth(&mut synth, &ModuleContext::Global, root);
    assert!(synth.is_empty());
    assert_eq!(out.len(), 2);
    match &out[1].kind {
        TypeKind::Interface(i) => assert_eq!(i.name, "B"),
        _ => panic!("expected an interface"),
    }
    assert!(out[0].exported && out[0].doc.is_none());
}

#[test]
fn variable_declarators_become_classes_functions_or_variables() {

    let module = ModuleContext::Module("cloudflare:email".to_string());
    assert!(var_promotes_to_class(false, &module, true, &Some(TsType::TypeLiteral)));
    assert!(!var_promotes_to_class(false, &ModuleContext::Global, true, &Some(TsType::TypeLiteral)));
    assert!(var_promotes_to_class(true, &ModuleContext::Global, false, &Some(TsType::TypeLiteral)));
    assert!(!var_promotes_to_class(true, &module, true, &Some(TsType::StringKeyword)));

    let mut arena = ScopeArena::new();
    let root = arena.create_root();
    let ctor = ConstructorMember { params: vec![], doc: None, throws: Throws::Unannotated };
    match var_class_kind("_EmailMessage".to_string(), Some("EmailMessage".to_string()), Some(ctor), vec![], &module, root) {
        TypeKind::Class(c) => {
            assert_eq!(c.name, "EmailMessage");
            assert_eq!(c.js_name, "EmailMessage");
            assert!(matches!(&c.members[..], [Member::Constructor(_)]));
            assert_eq!(c.type_module_context, module);
        }
        _ => panic!("expected a class"),
    }

    let comments: Vec<Comment> = Vec::new();
    let docs = DocComments::new(&comments, "");
    let mut ctx = ParseCtx { scopes: arena, docs: &docs, used_type_names: vec![], synth: vec![] };
    let f = Some(TsType::FunctionType(Box::new(TsFunctionType {
        type_parameters: None,
        params: TsFormalParameters { items: vec![], rest: None },
        return_type: Box::new(TsType::StringKeyword),
    })));
    match var_binding_kind("makeThing", &f, true, root, &mut ctx) {
        TypeKind::Function(d) => {
            assert_eq!(d.name, "make_thing");
            assert_eq!(d.js_name, "makeThing");
            assert_eq!(d.return_type, TypeRef::String);
            assert!(d.params.is_empty());
        }
        _ => panic!("expected a function"),
    }
    match var_binding_kind("maxCount", &None, true, root, &mut ctx) {
        TypeKind::Variable(v) => {
            assert_eq!(v.name, "max_count");
            assert_eq!(v.type_ref, TypeRef::Any);
            assert!(v.is_const);
        }
        _ => panic!("expected a variable"),
    }
}

#[test]
fn export_specifiers_become_aliases() {
    let mut arena = ScopeArena::new();
    let root = arena.create_root();
    let ctx = ModuleContext::Global;
    assert!(export_specifier_alias("X", "X", &None, false, &ctx, root).is_none());
    assert!(export_specifier_alias("_X", "X", &None, true, &ctx, root).is_none());
    let d = export_specifier_alias("Local", "Public", &None, false, &ctx, root).unwrap();
    match &d.kind {
        TypeKind::TypeAlias(a) => {
            assert_eq!(a.name, "Public");
            assert_eq!(a.target, TypeRef::ident("Local"));
            assert!(a.from_module.is_none());
        }
        _ => panic!("expected an alias"),
    }
    assert!(d.exported && d.doc.is_none());
    let d = export_specifier_alias("X", "X", &Some("./other".to_string()), false, &ctx, root).unwrap();
    match &d.kind {
        TypeKind::TypeAlias(a) => assert_eq!(a.from_module.as_deref(), Some("./other")),
        _ => panic!("expected an alias"),
    }
}
