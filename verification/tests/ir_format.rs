use ts_gen::ir::{Throws, TypeRef};

#[test]
fn format_ts_primitives_use_lowercase_keywords() {
    assert_eq!(TypeRef::String.format_ts(), "string");
    assert_eq!(TypeRef::Number.format_ts(), "number");
    assert_eq!(TypeRef::Boolean.format_ts(), "boolean");
    assert_eq!(TypeRef::Null.format_ts(), "null");
    assert_eq!(TypeRef::Undefined.format_ts(), "undefined");
}

#[test]
fn format_ts_literals_use_their_textual_form() {
    assert_eq!(TypeRef::StringLiteral("foo".into()).format_ts(), "\"foo\"");
    assert_eq!(TypeRef::NumberLiteral("32".into()).format_ts(), "32");
    assert_eq!(TypeRef::BooleanLiteral(true).format_ts(), "true");
}

#[test]
fn format_ts_union_renders_with_pipes() {
    let ty = TypeRef::Union(vec![
        TypeRef::String,
        TypeRef::ident("ArrayBuffer"),
        TypeRef::ArrayBufferView,
    ]);
    assert_eq!(ty.format_ts(), "string | ArrayBuffer | ArrayBufferView");
}

#[test]
fn format_ts_array_wraps_composite_inner_in_parens() {
    let ty = TypeRef::Array(Box::new(TypeRef::Union(vec![
        TypeRef::String,
        TypeRef::Number,
    ])));
    assert_eq!(ty.format_ts(), "(string | number)[]");
}

#[test]
fn format_ts_array_simple_inner_no_parens() {
    let ty = TypeRef::Array(Box::new(TypeRef::String));
    assert_eq!(ty.format_ts(), "string[]");
}

#[test]
fn format_ts_generic_with_inner_union() {
    let ty = TypeRef::generic(
        "Array",
        vec![TypeRef::Union(vec![
            TypeRef::NumberLiteral("32".into()),
            TypeRef::StringLiteral("foo".into()),
        ])],
    );
    assert_eq!(ty.format_ts(), "Array<32 | \"foo\">");
}

#[test]
fn format_ts_qualified_path() {
    let ty = TypeRef::Reference {
        segments: vec!["A".into(), "B".into(), "C".into()],
        generic_args: vec![],
    };
    assert_eq!(ty.format_ts(), "A.B.C");
}

#[test]
fn format_ts_qualified_generic() {
    let ty = TypeRef::Reference {
        segments: vec!["Rpc".into(), "Stub".into()],
        generic_args: vec![TypeRef::ident("Foo")],
    };
    assert_eq!(ty.format_ts(), "Rpc.Stub<Foo>");
}

#[test]
fn format_ts_nullable() {
    let ty = TypeRef::Nullable(Box::new(TypeRef::String));
    assert_eq!(ty.format_ts(), "string | null");
}

#[test]
fn as_ident_and_generic_head() {
    let foo = TypeRef::ident("Foo");
    assert_eq!(foo.as_ident(), Some("Foo"));
    assert_eq!(TypeRef::String.as_ident(), None);
    let p = TypeRef::generic("Promise", vec![TypeRef::String]);
    assert_eq!(p.as_ident(), None);
    assert_eq!(p.as_promise_inner(), Some(&TypeRef::String));
    assert_eq!(foo.as_promise_inner(), None);
}

#[test]
fn format_ts_function_and_tuple() {
    let t = TypeRef::Tuple(vec![TypeRef::String, TypeRef::Number]);
    assert_eq!(t.format_ts(), "[string, number]");
    let i = TypeRef::Intersection(vec![TypeRef::ident("A"), TypeRef::ident("B")]);
    assert_eq!(i.format_ts(), "A & B");
}

#[test]
fn throws_helpers() {
    assert!(Throws::Never.is_never());
    assert!(!Throws::Unannotated.is_never());
    assert_eq!(Throws::Type(TypeRef::String).as_type(), Some(&TypeRef::String));
    assert_eq!(Throws::Never.as_type(), None);
}
