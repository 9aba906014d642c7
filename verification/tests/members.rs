use ts_gen::ir::Throws;
use ts_gen::members::{class_method_members, MethodDefinitionKind};
use ts_gen::scope::ScopeId;
use ts_gen::members::{method_body_scope, method_signature_members, TsMethodSignatureKind};
use ts_gen::ctx::ParseCtx;
use ts_gen::docs::{Comment, DocComments, JsDocInfo};
use ts_gen::ir::{Member, TypeParam, TypeRef};
use ts_gen::members::{
    collect_in_scope_type_params, convert_accessor_property, convert_class_property,
    convert_index_signature, convert_property_signature, create_body_scope,
    property_key_name, split_info, try_synthesize_iterable_return, unique_type_name,
    AccessorProperty, PropertyDefinition, PropertyKey, TsIndexSignature,
    TsPropertySignature,
};
use ts_gen::scope::{Binding, ScopeArena};
use ts_gen::types::TsType;

fn empty_docs() -> (Vec<Comment>, String) {
    (Vec::new(), String::new())
}

#[test]
fn property_key_names() {
    assert_eq!(property_key_name(&PropertyKey::StaticIdentifier("foo".into())), Some("foo".to_string()));
    assert_eq!(property_key_name(&PropertyKey::StringLiteral("a-b".into())), Some("a-b".to_string()));
    assert_eq!(property_key_name(&PropertyKey::NumericLiteral("0".into())), Some("0".to_string()));
    assert_eq!(property_key_name(&PropertyKey::Computed), None);
}

#[test]
fn split_info_defaults_to_empty_info() {
    let (doc, info) = split_info(None);
    assert!(doc.is_none());
    assert!(info.throws.is_empty() && !info.nothrow);
    let given = JsDocInfo { throws: vec!["E".to_string()], nothrow: false };
    let (doc, info) = split_info(Some(("d".to_string(), given.clone())));
    assert_eq!(doc, Some("d".to_string()));
    assert_eq!(info, given);
}

#[test]
fn unique_names_get_numeric_suffixes() {
    let used = vec!["FooBar".to_string(), "FooBar2".to_string()];
    assert_eq!(unique_type_name("Foo", "bar", &used), "FooBar3");
    assert_eq!(unique_type_name("Foo", "baz", &used), "FooBaz");
    assert_eq!(unique_type_name("Foo", "bar", &vec!["FooBar".to_string()]), "FooBar2");
}

#[test]
fn body_scope_binds_type_params() {
    let (comments, source) = empty_docs();
    let docs = DocComments::new(&comments, &source);
    let mut ctx = ParseCtx { scopes: ScopeArena::new(), docs: &docs, used_type_names: vec![], synth: vec![] };
    let root = ctx.scopes.create_root();
    let tps = vec![TypeParam { name: "T".to_string(), constraint: None, default: None }];
    let body = create_body_scope(&tps, root, &mut ctx);
    assert_eq!(ctx.scopes.resolve_binding(body, "T"), Some(Binding::TypeParam));
    assert_eq!(ctx.scopes.resolve_binding(root, "T"), None);
}

#[test]
fn collects_in_scope_type_params_once_in_order() {
    let mut scopes = ScopeArena::new();
    let root = scopes.create_root();
    let child = scopes.create_child(root);
    scopes.insert_type_param(child, "T".to_string());
    scopes.insert_type_param(child, "U".to_string());
    let ty = TypeRef::Tuple(vec![
        TypeRef::ident("U"),
        TypeRef::generic("Map", vec![TypeRef::ident("T"), TypeRef::ident("U")]),
        TypeRef::ident("Other"),
    ]);
    let mut out = Vec::new();
    collect_in_scope_type_params(&ty, child, &scopes, &mut out);
    assert_eq!(out, vec!["U", "T"]);
    let mut none = Vec::new();
    collect_in_scope_type_params(&ty, root, &scopes, &mut none);
    assert!(none.is_empty());
}

#[test]
fn iterable_return_is_hoisted_into_a_wrapper() {
    let (comments, source) = empty_docs();
    let docs = DocComments::new(&comments, &source);
    let mut ctx = ParseCtx { scopes: ScopeArena::new(), docs: &docs, used_type_names: vec![], synth: vec![] };
    let root = ctx.scopes.create_root();
    let method_scope = ctx.scopes.create_child(root);
    ctx.scopes.insert_type_param(method_scope, "T".to_string());
    let ret = TypeRef::generic(
        "Iterable",
        vec![TypeRef::Tuple(vec![TypeRef::String, TypeRef::ident("T")])],
    );
    let rewritten =
        try_synthesize_iterable_return(&ret, "KeyValueStore", "list", method_scope, &mut ctx).unwrap();
    assert_eq!(rewritten.format_ts(), "KeyValueStoreList<T>");
    assert_eq!(ctx.used_type_names, vec!["KeyValueStoreList"]);
    assert_eq!(ctx.synth.len(), 1);
    let iface = &ctx.synth[0];
    assert_eq!(iface.name, "KeyValueStoreList");
    assert_eq!(iface.type_params.len(), 1);
    match &iface.members[0] {
        Member::Method(m) => {
            assert_eq!(m.js_name, "[Symbol.iterator]");
            assert_eq!(m.name, "iterator");
            assert_eq!(m.return_type.format_ts(), "Iterator<[string, T]>");
            assert_eq!(
                m.doc.as_deref(),
                Some("Conformance to the JS iteration protocol — returns the underlying iterator.")
            );
        }
        _ => panic!("expected a method"),
    }
    let plain = TypeRef::generic("Promise", vec![TypeRef::String]);
    assert!(try_synthesize_iterable_return(&plain, "A", "b", method_scope, &mut ctx).is_none());
    assert_eq!(ctx.synth.len(), 1);
    let again = TypeRef::generic("AsyncIterable", vec![TypeRef::Number]);
    let r = try_synthesize_iterable_return(&again, "KeyValue", "storeList", root, &mut ctx).unwrap();
    assert_eq!(r.format_ts(), "KeyValueStoreList2");
}

#[test]
fn property_signature_members() {
    let source = "/** The id. */ id: number;".to_string();
    let comments = vec![Comment { attached_to: 15, jsdoc: true, content_start: 3, content_end: 12 }];
    let docs = DocComments::new(&comments, &source);
    let mut ctx = ParseCtx { scopes: ScopeArena::new(), docs: &docs, used_type_names: vec![], synth: vec![] };
    let root = ctx.scopes.create_root();
    let prop = TsPropertySignature {
        span_start: 15,
        key: PropertyKey::StaticIdentifier("id".into()),
        optional: true,
        readonly: false,
        type_annotation: Some(TsType::NumberKeyword),
    };
    let ms = convert_property_signature(&prop, root, &mut ctx);
    assert_eq!(ms.len(), 2);
    match &ms[0] {
        Member::Getter(g) => {
            assert_eq!(g.js_name, "id");
            assert!(g.optional);
            assert_eq!(g.type_ref, TypeRef::Number);
            assert_eq!(g.doc.as_deref(), Some("The id."));
        }
        _ => panic!("expected a getter"),
    }
    match &ms[1] {
        Member::Setter(s) => assert!(s.doc.is_none()),
        _ => panic!("expected a setter"),
    }
    let ro = TsPropertySignature { readonly: true, span_start: 0, key: PropertyKey::Computed, optional: false, type_annotation: None };
    assert!(convert_property_signature(&ro, root, &mut ctx).is_empty());
}

#[test]
fn class_and_accessor_properties() {
    let (comments, source) = empty_docs();
    let docs = DocComments::new(&comments, &source);
    let mut ctx = ParseCtx { scopes: ScopeArena::new(), docs: &docs, used_type_names: vec![], synth: vec![] };
    let root = ctx.scopes.create_root();
    let p = PropertyDefinition {
        span_start: 0,
        key: PropertyKey::StaticIdentifier("count".into()),
        is_static: true,
        optional: false,
        readonly: true,
        type_annotation: None,
    };
    let ms = convert_class_property(&p, root, &mut ctx);
    assert_eq!(ms.len(), 1);
    assert!(matches!(&ms[0], Member::StaticGetter(g) if g.type_ref == TypeRef::Any));
    let a = AccessorProperty {
        span_start: 0,
        key: PropertyKey::StringLiteral("value".into()),
        is_static: false,
        type_annotation: Some(TsType::StringKeyword),
    };
    let ms = convert_accessor_property(&a, root, &mut ctx);
    assert_eq!(ms.len(), 2);
    assert!(matches!(&ms[0], Member::Getter(g) if !g.optional && g.type_ref == TypeRef::String));
    assert!(matches!(&ms[1], Member::Setter(_)));
}

#[test]
fn index_signature_defaults_key_to_string() {
    let (comments, source) = empty_docs();
    let docs = DocComments::new(&comments, &source);
    let mut ctx = ParseCtx { scopes: ScopeArena::new(), docs: &docs, used_type_names: vec![], synth: vec![] };
    let root = ctx.scopes.create_root();
    let idx = TsIndexSignature { parameters: vec![], type_annotation: TsType::NumberKeyword, readonly: true };
    match convert_index_signature(&idx, root, &mut ctx) {
        Some(Member::IndexSignature(i)) => {
            assert_eq!(i.key_type, TypeRef::String);
            assert_eq!(i.value_type, TypeRef::Number);
            assert!(i.readonly);
        }
        _ => panic!("expected an index signature"),
    }
}

fn param(name: &str, ty: TypeRef) -> ts_gen::ir::Param {
    ts_gen::ir::Param { name: name.to_string(), type_ref: ty, optional: false, variadic: false }
}

#[test]
fn class_method_kinds_dispatch() {
    let info = JsDocInfo { throws: vec!["TypeError".to_string()], nothrow: false };
    let none = JsDocInfo { throws: vec![], nothrow: false };
    let scope = ScopeId::dummy();

    let r = class_method_members(MethodDefinitionKind::Method, false, true, "getUserById".to_string(), vec![], vec![param("id", TypeRef::Number)], TypeRef::String, Some("d".to_string()), &info, scope);
    match &r[..] {
        [Member::Method(m)] => {
            assert_eq!(m.name, "get_user_by_id");
            assert_eq!(m.js_name, "getUserById");
            assert!(m.optional);
            assert_eq!(m.params.len(), 1);
            assert_eq!(m.return_type, TypeRef::String);
            assert!(matches!(&m.throws, Throws::Type(t) if *t == TypeRef::ident("TypeError")));
        }
        _ => panic!("expected one method"),
    }

    let r = class_method_members(MethodDefinitionKind::Method, true, true, "create".to_string(), vec![], vec![], TypeRef::Void, None, &none, scope);
    assert!(matches!(&r[..], [Member::StaticMethod(m)] if m.name == "create" && matches!(m.throws, Throws::Unannotated)));

    let r = class_method_members(MethodDefinitionKind::Setter, false, false, "value".to_string(), vec![], vec![param("v", TypeRef::Boolean)], TypeRef::Void, None, &none, scope);
    assert!(matches!(&r[..], [Member::Setter(s)] if s.js_name == "value" && s.type_ref == TypeRef::Boolean));

    let r = class_method_members(MethodDefinitionKind::Setter, true, false, "value".to_string(), vec![], vec![], TypeRef::Void, None, &none, scope);
    assert!(matches!(&r[..], [Member::StaticSetter(s)] if s.type_ref == TypeRef::Any));

    let r = class_method_members(MethodDefinitionKind::Getter, true, false, "count".to_string(), vec![], vec![], TypeRef::Number, None, &none, scope);
    assert!(matches!(&r[..], [Member::StaticGetter(g)] if g.type_ref == TypeRef::Number));

    let r = class_method_members(MethodDefinitionKind::Constructor, false, false, "constructor".to_string(), vec![], vec![param("x", TypeRef::Any)], TypeRef::Void, None, &info, scope);
    assert!(matches!(&r[..], [Member::Constructor(c)] if c.params.len() == 1));
}

#[test]
fn method_signature_getter_and_body_scope() {
    let none = JsDocInfo { throws: vec![], nothrow: false };
    let r = method_signature_members(TsMethodSignatureKind::Getter, true, "size".to_string(), vec![], vec![], TypeRef::Number, None, &none, ScopeId::dummy());
    assert!(matches!(&r[..], [Member::Getter(g)] if g.optional && g.js_name == "size"));

    let (comments, source) = empty_docs();
    let docs = DocComments::new(&comments, &source);
    let mut ctx = ParseCtx { scopes: ScopeArena::new(), docs: &docs, used_type_names: vec![], synth: vec![] };
    let root = ctx.scopes.create_root();
    let tps = vec![TypeParam { name: "T".to_string(), constraint: None, default: None }];
    assert_eq!(method_body_scope(MethodDefinitionKind::Constructor, &tps, root, &mut ctx), root);
    let body = method_body_scope(MethodDefinitionKind::Method, &tps, root, &mut ctx);
    assert_ne!(body, root);
    assert_eq!(ctx.scopes.resolve_binding(body, "T"), Some(Binding::TypeParam));
    assert_eq!(ctx.scopes.get(body).parent, Some(root));
}
