use ts_gen::ctx::ParseCtx;
use ts_gen::docs::{Comment, DocComments};
use ts_gen::ir::{InterfaceClassification, TypeKind};
use ts_gen::populate::alias_union_decl;
use ts_gen::scope::ScopeArena;
use ts_gen::ir::{
    GetterMember, IndexSigMember, Member, MethodMember, SetterMember, Throws, TypeRef,
};
use ts_gen::ir::copy_ty;
use ts_gen::literal_union::{detect_discriminators, merge_member_branches};
use ts_gen::scope::ScopeId;

fn getter(name: &str, ty: TypeRef, optional: bool) -> Member {
    Member::Getter(GetterMember { js_name: name.to_string(), type_ref: ty, optional, doc: None })
}

fn setter(name: &str, ty: TypeRef) -> Member {
    Member::Setter(SetterMember { js_name: name.to_string(), type_ref: ty, doc: None })
}

fn prop(name: &str, ty: TypeRef, optional: bool) -> Vec<Member> {
    vec![getter(name, copy_ty(&ty), optional), setter(name, ty)]
}

fn method(name: &str) -> Member {
    Member::Method(MethodMember {
        name: name.to_string(),
        js_name: name.to_string(),
        type_params: vec![],
        params: vec![],
        return_type: TypeRef::Void,
        optional: false,
        doc: None,
        throws: Throws::Unannotated,
        body_scope: ScopeId::dummy(),
    })
}

fn lit(s: &str) -> TypeRef {
    TypeRef::StringLiteral(s.to_string())
}

fn names(ms: &[Member]) -> Vec<String> {
    ms.iter()
        .map(|m| match m {
            Member::Getter(g) => format!("get {}", g.js_name),
            Member::Setter(s) => format!("set {}", s.js_name),
            Member::Method(x) => format!("method {}", x.js_name),
            Member::IndexSignature(_) => "index".to_string(),
            _ => "other".to_string(),
        })
        .collect()
}

fn email_branches() -> Vec<Vec<Member>> {
    let mut inline = prop("disposition", lit("inline"), false);
    inline.extend(prop("contentId", TypeRef::String, false));
    inline.extend(prop("filename", TypeRef::String, false));
    let mut attachment = prop("disposition", lit("attachment"), false);
    attachment.extend(prop("contentId", TypeRef::Undefined, true));
    attachment.extend(prop("filename", TypeRef::String, false));
    vec![inline, attachment]
}

#[test]
fn merge_keeps_first_appearance_order_and_pairs_getters_with_setters() {
    let merged = merge_member_branches(&email_branches());
    assert_eq!(
        names(&merged),
        vec![
            "get disposition",
            "set disposition",
            "get contentId",
            "set contentId",
            "get filename",
            "set filename"
        ]
    );
}

#[test]
fn merge_optionality_and_types() {
    let merged = merge_member_branches(&email_branches());
    match &merged[0] {
        Member::Getter(g) => {
            assert!(!g.optional);
            assert_eq!(g.type_ref, TypeRef::Union(vec![lit("inline"), lit("attachment")]));
        }
        _ => panic!("expected a getter"),
    }
    match &merged[2] {
        Member::Getter(g) => {
            assert!(g.optional);
            assert_eq!(g.type_ref, TypeRef::Nullable(Box::new(TypeRef::String)));
        }
        _ => panic!("expected a getter"),
    }
    match &merged[4] {
        Member::Getter(g) => {
            assert!(!g.optional);
            assert_eq!(g.type_ref, TypeRef::String);
        }
        _ => panic!("expected a getter"),
    }
}

#[test]
fn merge_missing_property_is_optional_and_readonly_branch_drops_setter() {
    let a = vec![getter("id", TypeRef::Number, false), setter("id", TypeRef::Number), getter("x", TypeRef::String, false)];
    let b = vec![getter("id", TypeRef::Number, false)];
    let merged = merge_member_branches(&[a, b]);
    assert_eq!(names(&merged), vec!["get id", "get x"]);
    match &merged[1] {
        Member::Getter(g) => assert!(g.optional),
        _ => panic!("expected a getter"),
    }
}

#[test]
fn merge_methods_grouped_and_first_index_signature() {
    let idx = |ro: bool| {
        Member::IndexSignature(IndexSigMember {
            key_type: TypeRef::String,
            value_type: TypeRef::Any,
            readonly: ro,
        })
    };
    let a = vec![method("run"), idx(true), method("stop")];
    let b = vec![method("stop"), idx(false), method("run")];
    let merged = merge_member_branches(&[a, b]);
    assert_eq!(
        names(&merged),
        vec!["method run", "method run", "method stop", "method stop", "index"]
    );
    match &merged[4] {
        Member::IndexSignature(i) => assert!(i.readonly),
        _ => panic!("expected an index signature"),
    }
}

#[test]
fn merge_of_one_branch_is_the_branch_and_of_none_is_empty() {
    let one = vec![getter("a", TypeRef::String, true)];
    let merged = merge_member_branches(&[one]);
    assert_eq!(names(&merged), vec!["get a"]);
    assert!(merge_member_branches(&[]).is_empty());
}

#[test]
fn discriminators_are_required_literal_getters_everywhere() {
    let branches = email_branches();
    assert_eq!(detect_discriminators(&branches), vec!["disposition"]);
    assert!(detect_discriminators(&branches[..1]).is_empty());
    let a = vec![getter("ok", TypeRef::BooleanLiteral(true), false)];
    let b = vec![getter("ok", TypeRef::BooleanLiteral(false), true)];
    assert!(detect_discriminators(&[a, b]).is_empty());
}

#[test]
fn alias_union_becomes_discriminated_union_or_interface() {

    let comments: Vec<Comment> = Vec::new();
    let docs = DocComments::new(&comments, "");
    let mut ctx = ParseCtx { scopes: ScopeArena::new(), docs: &docs, used_type_names: vec![], synth: vec![] };
    let root = ctx.scopes.create_root();

    let kind = alias_union_decl("EmailAttachment", email_branches(), root, InterfaceClassification::ClassLike, &mut ctx);
    match kind {
        TypeKind::DiscriminatedUnion(d) => {
            assert_eq!(d.name, "EmailAttachment");
            assert_eq!(d.discriminators, vec!["disposition".to_string()]);
            assert_eq!(d.branches.len(), 2);
            assert_eq!(names(&d.members), names(&merge_member_branches(&email_branches())));
        }
        _ => panic!("expected a discriminated union"),
    }

    let plain = vec![prop("a", TypeRef::String, false), prop("b", TypeRef::Number, false)];
    let kind = alias_union_decl("Options", plain, root, InterfaceClassification::ClassLike, &mut ctx);
    match kind {
        TypeKind::Interface(i) => {
            assert_eq!(i.name, "Options");
            assert_eq!(i.classification, InterfaceClassification::ClassLike);
            assert_eq!(names(&i.members), vec!["get a", "set a", "get b", "set b"]);
        }
        _ => panic!("expected an interface"),
    }
    assert_eq!(ctx.used_type_names, vec!["EmailAttachment".to_string(), "Options".to_string()]);
}
