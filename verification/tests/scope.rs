use ts_gen::context::GlobalContext;
use ts_gen::ir::{InterfaceClassification, InterfaceDecl, ModuleContext, TypeDeclaration, TypeKind};
use ts_gen::scope::{Binding, ScopeArena, ScopeId, TypeScope};

fn make_iface_decl(name: &str, scope: ScopeId) -> TypeDeclaration {
    TypeDeclaration {
        kind: TypeKind::Interface(InterfaceDecl {
            name: name.to_string(),
            js_name: name.to_string(),
            type_params: vec![],
            extends: vec![],
            members: vec![],
            classification: InterfaceClassification::ClassLike,
            body_scope: scope,
        }),
        module_context: ModuleContext::Global,
        doc: None,
        scope_id: scope,
        exported: false,
    }
}

#[test]
fn test_basic_resolution() {
    let mut gctx = GlobalContext::new();
    let root = gctx.create_root_scope();
    let type_id = gctx.insert_type(make_iface_decl("Foo", root));
    gctx.scopes.insert(root, "Foo".to_string(), type_id);

    assert!(gctx.scopes.resolve(root, "Foo").is_some());
    assert!(gctx.scopes.resolve(root, "Bar").is_none());
}

#[test]
fn test_child_scope_shadows_parent() {
    let mut gctx = GlobalContext::new();
    let parent = gctx.create_root_scope();
    let child = gctx.scopes.create_child(parent);

    let id_a = gctx.insert_type(make_iface_decl("Foo", parent));
    let id_b = gctx.insert_type(make_iface_decl("Foo", child));

    gctx.scopes.insert(parent, "Foo".to_string(), id_a);
    gctx.scopes.insert(child, "Foo".to_string(), id_b);

    assert_eq!(gctx.scopes.resolve(child, "Foo"), Some(id_b));
    assert_eq!(gctx.scopes.resolve(parent, "Foo"), Some(id_a));
}

#[test]
fn test_child_inherits_parent() {
    let mut gctx = GlobalContext::new();
    let parent = gctx.create_root_scope();
    let child = gctx.scopes.create_child(parent);

    let id = gctx.insert_type(make_iface_decl("Foo", parent));
    gctx.scopes.insert(parent, "Foo".to_string(), id);

    assert_eq!(gctx.scopes.resolve(child, "Foo"), Some(id));
}

#[test]
fn test_type_param_shadows_outer_declaration() {
    let mut gctx = GlobalContext::new();
    let parent = gctx.create_root_scope();
    let child = gctx.scopes.create_child(parent);

    let id = gctx.insert_type(make_iface_decl("T", parent));
    gctx.scopes.insert(parent, "T".to_string(), id);
    gctx.scopes.insert_type_param(child, "T".to_string());

    assert_eq!(gctx.scopes.resolve_binding(child, "T"), Some(Binding::TypeParam));
    assert_eq!(gctx.scopes.resolve(child, "T"), None);
    assert_eq!(gctx.scopes.resolve(parent, "T"), Some(id));
}

#[test]
fn scope_insert_overwrites_and_iter_lists_declared() {
    let mut gctx = GlobalContext::new();
    let root = gctx.create_root_scope();
    let a = gctx.insert_type(make_iface_decl("A", root));
    let b = gctx.insert_type(make_iface_decl("B", root));
    let mut s = TypeScope::new(None);
    s.insert("A".to_string(), a);
    s.insert_type_param("T".to_string());
    s.insert("A".to_string(), b);
    assert_eq!(s.get("A"), Some(b));
    assert_eq!(s.get("T"), None);
    assert_eq!(s.get_binding("T"), Some(Binding::TypeParam));
    let listed = s.iter();
    assert_eq!(listed, vec![("A".to_string(), b)]);
}

#[test]
fn arena_get_and_get_mut() {
    let mut arena = ScopeArena::new();
    let root = arena.create_root();
    let child = arena.create_child(root);
    assert_eq!(arena.get(child).parent, Some(root));
    arena.get_mut(child).insert_type_param("U".to_string());
    assert_eq!(arena.resolve_binding(child, "U"), Some(Binding::TypeParam));
    assert_eq!(arena.resolve_binding(root, "U"), None);
    let arena2 = ScopeArena::default();
    let _ = arena2;
}

#[test]
fn iter_yields_each_declared_name_once() {
    let mut s = TypeScope::new(None);
    s.insert("A".to_string(), ts_gen::context::TypeId(1));
    s.insert_type_param("T".to_string());
    s.insert("B".to_string(), ts_gen::context::TypeId(2));
    s.insert("A".to_string(), ts_gen::context::TypeId(3));
    s.insert("T".to_string(), ts_gen::context::TypeId(4));
    let declared = s.iter();
    assert_eq!(
        declared,
        vec![
            ("A".to_string(), ts_gen::context::TypeId(3)),
            ("T".to_string(), ts_gen::context::TypeId(4)),
            ("B".to_string(), ts_gen::context::TypeId(2)),
        ]
    );
    assert_eq!(s.get_binding("A"), Some(Binding::Declared(ts_gen::context::TypeId(3))));
}

#[test]
fn insert_replaces_type_param_and_resolves() {
    let mut arena = ScopeArena::new();
    let root = arena.create_root();
    arena.insert_type_param(root, "T".to_string());
    assert_eq!(arena.resolve(root, "T"), None);
    arena.insert(root, "T".to_string(), ts_gen::context::TypeId(7));
    assert_eq!(arena.resolve(root, "T"), Some(ts_gen::context::TypeId(7)));
    assert_eq!(arena.get(root).iter().len(), 1);
}
