use ts_gen::docs::{
    clean_jsdoc, clean_jsdoc_with_info, format_param, is_primitive_type_name, Comment,
    DocComments, JsDocInfo,
};
use ts_gen::ir::{Throws, TypeRef};

fn parse(raw: &str) -> (String, JsDocInfo) {
    clean_jsdoc_with_info(raw)
}

#[test]
fn test_clean_single_line() {
    assert_eq!(clean_jsdoc(" A simple description "), "A simple description");
}

#[test]
fn test_clean_multi_line() {
    let raw = "\n * First line\n * Second line\n ";
    assert_eq!(clean_jsdoc(raw), "First line\nSecond line");
}

#[test]
fn test_param_conversion() {
    let raw = "\n * Does a thing.\n * @param x - the value\n * @returns the result\n ";
    assert_eq!(
        clean_jsdoc(raw),
        "Does a thing.\n\n* `x` - the value\n\nReturns: the result"
    );
}

#[test]
fn test_param_without_dash() {
    let raw = "\n * Hello.\n * @param source Source code to parse\n ";
    assert_eq!(clean_jsdoc(raw), "Hello.\n\n* `source` - Source code to parse");
}

#[test]
fn test_multiple_params() {
    let raw = "\n * Parse it.\n * @param source Source code\n * @param name Optional name\n * @returns The parsed result.\n ";
    assert_eq!(
        clean_jsdoc(raw),
        "Parse it.\n\n* `source` - Source code\n* `name` - Optional name\n\nReturns: The parsed result."
    );
}

#[test]
fn test_example_block() {
    let raw = "\n * Do something.\n * @example\n * const x = foo();\n * console.log(x);\n ";
    assert_eq!(
        clean_jsdoc(raw),
        "Do something.\n\n## Example\n\n```js\nconst x = foo();\nconsole.log(x);\n```"
    );
}

#[test]
fn test_multiple_examples() {
    let raw = "\n * Thing.\n * @example\n * foo();\n * @example\n * bar();\n ";
    assert_eq!(
        clean_jsdoc(raw),
        "Thing.\n\n## Example\n\n```js\nfoo();\n```\n\n## Example\n\n```js\nbar();\n```"
    );
}

#[test]
fn test_param_with_jsdoc_type() {
    assert_eq!(format_param("{string} name - the name"), "* `name` - the name");
}

#[test]
fn test_description_only() {
    let raw = "\n * Just a description with `inline code`.\n ";
    assert_eq!(clean_jsdoc(raw), "Just a description with `inline code`.");
}

#[test]
fn test_example_between_tags() {
    let raw = "\n * Desc.\n * @example\n * code();\n * @returns result\n ";
    assert_eq!(
        clean_jsdoc(raw),
        "Desc.\n\nReturns: result\n\n## Example\n\n```js\ncode();\n```"
    );
}

#[test]
fn test_throws_single_braced_type() {
    let raw = "\n * Does X.\n * @throws {TypeError} when foo is bad\n ";
    let (doc, info) = parse(raw);
    assert_eq!(info.throws, vec!["TypeError"]);
    assert!(doc.contains("## Errors"));
    assert!(doc.contains("`TypeError` — when foo is bad"));
}

#[test]
fn test_throws_union() {
    let raw = "\n * @throws {TypeError | RangeError} on bad input\n ";
    let (_doc, info) = parse(raw);
    assert_eq!(info.throws, vec!["TypeError", "RangeError"]);
}

#[test]
fn test_throws_link_form() {
    let raw = "\n * @throws {@link ImagesError} if upload fails\n ";
    let (doc, info) = parse(raw);
    assert_eq!(info.throws, vec!["ImagesError"]);
    assert!(doc.contains("`ImagesError` — if upload fails"));
}

#[test]
fn test_throws_multiple_lines_dedup_preserves_order() {
    let raw = "
                 * @throws {NotFoundError} if not found
                 * @throws {BadRequestError} if invalid
                 * @throws {NotFoundError} again
                 ";
    let (_doc, info) = parse(raw);
    assert_eq!(info.throws, vec!["NotFoundError", "BadRequestError"]);
}

#[test]
fn test_throws_pure_prose_has_no_types() {
    let raw = "\n * @throws If the resource does not exist, an error is thrown.\n ";
    let (doc, info) = parse(raw);
    assert!(info.throws.is_empty());
    assert!(doc.contains("## Errors"));
    assert!(doc.contains("If the resource does not exist"));
}

#[test]
fn test_throws_primitives_filtered() {
    let raw = "\n * @throws {TypeError | string} bad input\n ";
    let (_doc, info) = parse(raw);
    assert_eq!(info.throws, vec!["TypeError"]);
    assert!(!info.nothrow);
}

#[test]
fn test_throws_unmatched_brace_falls_back_to_prose() {
    let raw = "\n * @throws {TypeError if oops\n ";
    let (_doc, info) = parse(raw);
    assert!(info.throws.is_empty());
    assert!(!info.nothrow);
}

#[test]
fn test_no_throws_yields_empty_info() {
    let raw = "\n * Just a description.\n ";
    let (_doc, info) = parse(raw);
    assert!(info.throws.is_empty());
    assert!(!info.nothrow);
}

#[test]
fn test_throws_never_sets_nothrow() {
    let raw = "\n * Always succeeds.\n * @throws {never}\n ";
    let (_doc, info) = parse(raw);
    assert!(info.throws.is_empty());
    assert!(info.nothrow);
    assert_eq!(info.throws(), Throws::Never);
}

#[test]
fn test_throws_never_omits_errors_section() {
    let raw = "\n * Always succeeds.\n * @throws {never} guaranteed by construction\n ";
    let (doc, info) = parse(raw);
    assert!(info.throws.is_empty());
    assert!(info.nothrow);
    assert!(!doc.contains("## Errors"));
    assert!(!doc.contains("never"));
}

#[test]
fn test_throws_never_alongside_typed_throws_keeps_errors_section() {
    let raw = "
            * @throws {never} this branch never fires
            * @throws {TypeError} when foo is bad
            ";
    let (doc, info) = parse(raw);
    assert_eq!(info.throws, vec!["TypeError"]);
    assert!(info.nothrow);
    assert!(doc.contains("## Errors"));
    assert!(doc.contains("`TypeError`"));
    assert!(!doc.contains("this branch never fires"));
}

#[test]
fn test_throws_never_in_union_is_absorbed() {
    let raw = "\n * @throws {never | TypeError} sometimes\n ";
    let (_doc, info) = parse(raw);
    assert_eq!(info.throws, vec!["TypeError"]);
    assert!(!info.nothrow);
    assert_eq!(info.throws(), Throws::Type(TypeRef::ident("TypeError")));
}

#[test]
fn test_throws_never_only_after_primitives_filtered() {
    let raw = "\n * @throws {never | string} dead code\n ";
    let (_doc, info) = parse(raw);
    assert!(info.throws.is_empty());
    assert!(info.nothrow);
}

#[test]
fn info_throws_mapping() {
    let none = JsDocInfo { throws: vec![], nothrow: false };
    assert_eq!(none.throws(), Throws::Unannotated);
    let two = JsDocInfo { throws: vec!["A".to_string(), "B".to_string()], nothrow: true };
    assert_eq!(
        two.throws(),
        Throws::Type(TypeRef::Union(vec![TypeRef::ident("A"), TypeRef::ident("B")]))
    );
}

#[test]
fn primitive_names() {
    assert!(is_primitive_type_name("string"));
    assert!(is_primitive_type_name("never"));
    assert!(!is_primitive_type_name("TypeError"));
    assert!(!is_primitive_type_name("String"));
}

#[test]
fn format_param_forms() {
    assert_eq!(format_param("x"), "* `x`");
    assert_eq!(format_param("  x   the  value "), "* `x` - the  value");
    assert_eq!(format_param("{number x - unterminated"), "* `{number x` - unterminated");
}

#[test]
fn unknown_tags_and_return_alias() {
    let raw = "\n * Text.\n * @deprecated use other\n * @return the thing\n";
    assert_eq!(clean_jsdoc(raw), "Text.\n@deprecated use other\n\nReturns: the thing");
}

#[test]
fn empty_example_is_dropped() {
    let raw = "\n * Text.\n * @example\n *\n * @returns r\n ";
    assert_eq!(clean_jsdoc(raw), "Text.\n\nReturns: r");
}

#[test]
fn blank_lines_inside_description_kept() {
    let raw = "\n *\n * First\n *\n * Second\n *\n ";
    assert_eq!(clean_jsdoc(raw), "First\n\nSecond");
}

#[test]
fn doc_comments_lookup_takes_last_jsdoc() {
    let source = "/** first */ /** second */ /* plain */ x";
    let comments = [
        Comment { attached_to: 40, jsdoc: true, content_start: 3, content_end: 10 },
        Comment { attached_to: 40, jsdoc: true, content_start: 16, content_end: 24 },
        Comment { attached_to: 40, jsdoc: false, content_start: 29, content_end: 36 },
    ];
    let docs = DocComments::new(&comments, source);
    assert_eq!(docs.for_span(40), Some("second".to_string()));
    assert_eq!(docs.for_span(7), None);
    let (doc, info) = docs.info_for_span(40).unwrap();
    assert_eq!(doc, "second");
    assert!(info.throws.is_empty());
}
