use ts_gen::context::{CodegenContext, GlobalContext};
use ts_gen::scope::ScopeId;
use ts_gen::subtyping::{ancestor_chain, builtin_parents, lub_types};

fn ctx() -> (GlobalContext, ScopeId) {
    let mut gctx = GlobalContext::new();
    let scope = gctx.create_root_scope();
    (gctx, scope)
}

#[test]
fn builtin_chain_for_type_error() {
    let (gctx, scope) = ctx();
    let cgctx = CodegenContext::empty(&gctx, scope);
    let chain = ancestor_chain("TypeError", &cgctx, scope);
    assert_eq!(chain, vec!["TypeError", "Error", "Object"]);
}

#[test]
fn builtin_chain_for_dom_exception() {
    let (gctx, scope) = ctx();
    let cgctx = CodegenContext::empty(&gctx, scope);
    let chain = ancestor_chain("DOMException", &cgctx, scope);
    assert_eq!(chain, vec!["DOMException", "Error", "Object"]);
}

#[test]
fn unknown_name_falls_to_object() {
    let (gctx, scope) = ctx();
    let cgctx = CodegenContext::empty(&gctx, scope);
    let chain = ancestor_chain("ImagesError", &cgctx, scope);
    assert_eq!(chain, vec!["ImagesError", "Object"]);
}

#[test]
fn lub_two_error_subclasses_is_error() {
    let (gctx, scope) = ctx();
    let cgctx = CodegenContext::empty(&gctx, scope);
    let lub = lub_types(&["TypeError", "RangeError"], &cgctx, scope);
    assert_eq!(lub, Some("Error".to_string()));
}

#[test]
fn lub_three_error_subclasses_is_error() {
    let (gctx, scope) = ctx();
    let cgctx = CodegenContext::empty(&gctx, scope);
    let lub = lub_types(&["TypeError", "RangeError", "DOMException"], &cgctx, scope);
    assert_eq!(lub, Some("Error".to_string()));
}

#[test]
fn lub_error_with_unknown_user_type_is_object() {
    let (gctx, scope) = ctx();
    let cgctx = CodegenContext::empty(&gctx, scope);
    let lub = lub_types(&["TypeError", "ImagesError"], &cgctx, scope);
    assert_eq!(lub, Some("Object".to_string()));
}

#[test]
fn lub_array_with_typed_array_is_object() {
    let (gctx, scope) = ctx();
    let cgctx = CodegenContext::empty(&gctx, scope);
    let lub = lub_types(&["Array", "Uint8Array"], &cgctx, scope);
    assert_eq!(lub, Some("Object".to_string()));
}

#[test]
fn lub_single_name_returns_self() {
    let (gctx, scope) = ctx();
    let cgctx = CodegenContext::empty(&gctx, scope);
    let lub = lub_types(&["TypeError"], &cgctx, scope);
    assert_eq!(lub, Some("TypeError".to_string()));
}

#[test]
fn lub_empty_returns_none() {
    let (gctx, scope) = ctx();
    let cgctx = CodegenContext::empty(&gctx, scope);
    let lub = lub_types(&[], &cgctx, scope);
    assert!(lub.is_none());
}

#[test]
fn lub_same_name_returns_that_name() {
    let (gctx, scope) = ctx();
    let cgctx = CodegenContext::empty(&gctx, scope);
    let lub = lub_types(&["TypeError", "TypeError"], &cgctx, scope);
    assert_eq!(lub, Some("TypeError".to_string()));
}

#[test]
fn builtin_parents_of_known_and_unknown_names() {
    assert_eq!(builtin_parents("TypeError"), &["Error"]);
    assert_eq!(builtin_parents("Error"), &["Object"]);
    assert!(builtin_parents("Object").is_empty());
    assert!(builtin_parents("NoSuchBuiltin").is_empty());
}

#[test]
fn chain_always_starts_with_the_name() {
    let (gctx, scope) = ctx();
    let cgctx = CodegenContext::empty(&gctx, scope);
    for name in ["TypeError", "Uint8Array", "Whatever", "Object"] {
        let chain = ancestor_chain(name, &cgctx, scope);
        assert_eq!(chain[0], name);
        assert_eq!(chain.last().map(String::as_str), Some("Object"));
    }
}

#[test]
fn lub_is_symmetric_on_examples() {
    let (gctx, scope) = ctx();
    let cgctx = CodegenContext::empty(&gctx, scope);
    assert_eq!(
        lub_types(&["RangeError", "TypeError"], &cgctx, scope),
        lub_types(&["TypeError", "RangeError"], &cgctx, scope)
    );
}

#[test]
fn lub_ignores_order_and_repeats() {
    let (gctx, scope) = ctx();
    let cgctx = CodegenContext::empty(&gctx, scope);
    let a = lub_types(&["TypeError", "RangeError", "DOMException"], &cgctx, scope);
    let b = lub_types(&["DOMException", "TypeError", "RangeError", "TypeError"], &cgctx, scope);
    assert_eq!(a, b);
    assert_eq!(b, Some("Error".to_string()));
    let c = lub_types(&["ImagesError", "TypeError", "ImagesError"], &cgctx, scope);
    assert_eq!(c, Some("Object".to_string()));
}
