use ts_gen::ctx::ParseCtx;
use ts_gen::docs::{Comment, DocComments};
use ts_gen::ir::{Param, TypeRef};
use ts_gen::scope::ScopeArena;
use ts_gen::types::{
    convert_formal_params, convert_formal_params_scoped, convert_ts_type,
    convert_ts_type_scoped, convert_type_params, simplify_union, TsFormalParameter,
    TsFormalParameters, TsFunctionType, TsLiteral, TsRestParameter, TsTupleElement, TsType,
    TsTypeName, TsTypeOperator, TsTypeParameter, TsTypeReference,
};

fn named(name: &str, args: Option<Vec<TsType>>) -> TsType {
    TsType::TypeReference(TsTypeReference {
        name: TsTypeName::IdentifierReference(name.to_string()),
        type_arguments: args,
    })
}

#[test]
fn keywords_convert_to_primitives() {
    assert_eq!(convert_ts_type(&TsType::StringKeyword), TypeRef::String);
    assert_eq!(convert_ts_type(&TsType::NeverKeyword), TypeRef::Any);
    assert_eq!(convert_ts_type(&TsType::TypeLiteral), TypeRef::Object);
    assert_eq!(convert_ts_type(&TsType::TemplateLiteralType), TypeRef::String);
    assert_eq!(
        convert_ts_type(&TsType::MappedType),
        TypeRef::Unresolved("mapped type".to_string())
    );
}

#[test]
fn union_with_null_becomes_nullable() {
    let t = TsType::UnionType(vec![TsType::StringKeyword, TsType::NullKeyword]);
    assert_eq!(convert_ts_type(&t), TypeRef::Nullable(Box::new(TypeRef::String)));
    let t = TsType::UnionType(vec![
        TsType::StringKeyword,
        TsType::NullKeyword,
        TsType::UndefinedKeyword,
    ]);
    assert_eq!(convert_ts_type(&t), TypeRef::Nullable(Box::new(TypeRef::String)));
    let t = TsType::UnionType(vec![TsType::NullKeyword, TsType::UndefinedKeyword]);
    assert_eq!(convert_ts_type(&t), TypeRef::Null);
}

#[test]
fn simplify_union_keeps_multiple_arms() {
    let r = simplify_union(vec![TypeRef::String, TypeRef::Void, TypeRef::Number]);
    assert_eq!(
        r,
        TypeRef::Nullable(Box::new(TypeRef::Union(vec![TypeRef::String, TypeRef::Number])))
    );
    assert_eq!(simplify_union(vec![]), TypeRef::Null);
}

#[test]
fn wrapper_and_utility_references() {
    assert_eq!(convert_ts_type(&named("Boolean", None)), TypeRef::Boolean);
    assert_eq!(
        convert_ts_type(&named("Partial", Some(vec![named("Foo", None)]))),
        TypeRef::ident("Foo")
    );
    assert_eq!(convert_ts_type(&named("Partial", None)), TypeRef::Object);
    match convert_ts_type(&named("Function", None)) {
        TypeRef::Function(sig) => {
            assert!(sig.params.is_empty());
            assert_eq!(*sig.return_type, TypeRef::Any);
        }
        other => panic!("unexpected {:?}", other),
    }
    let q = TsType::TypeReference(TsTypeReference {
        name: TsTypeName::QualifiedName(
            Box::new(TsTypeName::IdentifierReference("A".to_string())),
            "B".to_string(),
        ),
        type_arguments: Some(vec![TsType::NumberKeyword]),
    });
    assert_eq!(convert_ts_type(&q).format_ts(), "A.B<number>");
}

#[test]
fn tuples_arrays_literals_and_operators() {
    let t = TsType::TupleType(vec![
        TsTupleElement::Type(Box::new(TsType::StringKeyword)),
        TsTupleElement::OptionalType(Box::new(TsType::NumberKeyword)),
        TsTupleElement::RestType(Box::new(TsType::BooleanKeyword)),
    ]);
    assert_eq!(convert_ts_type(&t).format_ts(), "[string, number | null, boolean]");
    let a = TsType::ArrayType(Box::new(TsType::LiteralType(TsLiteral::String("x".to_string()))));
    assert_eq!(convert_ts_type(&a).format_ts(), "\"x\"[]");
    let r = TsType::TypeOperatorType(TsTypeOperator::Readonly, Box::new(TsType::StringKeyword));
    assert_eq!(convert_ts_type(&r), TypeRef::String);
    let k = TsType::TypeOperatorType(TsTypeOperator::Keyof, Box::new(TsType::StringKeyword));
    assert_eq!(convert_ts_type(&k), TypeRef::Unresolved("type operator".to_string()));
}

#[test]
fn function_type_with_type_params_adds_a_child_scope() {
    let f = TsType::FunctionType(Box::new(TsFunctionType {
        type_parameters: Some(vec![TsTypeParameter {
            name: "T".to_string(),
            constraint: None,
            default: None,
        }]),
        params: TsFormalParameters {
            items: vec![
                TsFormalParameter {
                    name: Some("userId".to_string()),
                    type_annotation: Some(named("T", None)),
                    optional: false,
                },
                TsFormalParameter { name: None, type_annotation: None, optional: true },
            ],
            rest: Some(TsRestParameter { name: None, type_annotation: None }),
        },
        return_type: Box::new(TsType::VoidKeyword),
    }));
    let comments: Vec<Comment> = Vec::new();
    let docs = DocComments::new(&comments, "");
    let mut ctx = ParseCtx { scopes: ScopeArena::new(), docs: &docs, used_type_names: vec![], synth: vec![] };
    let root = ctx.scopes.create_root();
    let t = convert_ts_type_scoped(&f, root, &mut ctx);
    assert_eq!(t.format_ts(), "(user_id: T, arg1?: any, ...rest: any[]) => void");
    // The literal's own `<T>` lives in a fresh child of `root`.
    let next = ctx.scopes.create_child(root);
    assert_eq!(ctx.scopes.get(next).parent, Some(root));
    assert_eq!(ctx.scopes.resolve_binding(root, "T"), None);
}

#[test]
fn formal_params_without_scope() {
    let ps = TsFormalParameters {
        items: vec![TsFormalParameter {
            name: Some("x".to_string()),
            type_annotation: Some(TsType::NumberKeyword),
            optional: true,
        }],
        rest: Some(TsRestParameter {
            name: Some("more".to_string()),
            type_annotation: Some(TsType::ArrayType(Box::new(TsType::StringKeyword))),
        }),
    };
    let params: Vec<Param> = convert_formal_params(&ps);
    assert_eq!(params.len(), 2);
    assert_eq!(params[0].name, "x");
    assert!(params[0].optional);
    assert_eq!(params[1].name, "more");
    assert!(params[1].variadic);
    let comments: Vec<Comment> = Vec::new();
    let docs = DocComments::new(&comments, "");
    let mut ctx = ParseCtx { scopes: ScopeArena::new(), docs: &docs, used_type_names: vec![], synth: vec![] };
    let root = ctx.scopes.create_root();
    let again = convert_formal_params_scoped(&ps, root, &mut ctx);
    assert_eq!(again[1].type_ref.format_ts(), "string[]");
}

#[test]
fn type_params_convert_constraints_and_defaults() {
    let tps = vec![TsTypeParameter {
        name: "K".to_string(),
        constraint: Some(TsType::StringKeyword),
        default: Some(TsType::LiteralType(TsLiteral::Numeric("1".to_string()))),
    }];
    let out = convert_type_params(Some(&tps));
    assert_eq!(out.len(), 1);
    assert_eq!(out[0].name, "K");
    assert_eq!(out[0].constraint, Some(TypeRef::String));
    assert_eq!(out[0].default, Some(TypeRef::NumberLiteral("1".to_string())));
    assert!(convert_type_params(None).is_empty());
}
