use ts_gen::naming::{
    dedup_names, module_specifier_to_ident, to_enum_variant, to_pascal_case, to_snake_case,
};

#[test]
fn test_snake_case() {
    assert_eq!(to_snake_case("getUserById"), "get_user_by_id");
    assert_eq!(to_snake_case("HTMLElement"), "html_element");
    assert_eq!(to_snake_case("send"), "send");
}

#[test]
fn test_snake_case_keeps_trailing_digits_with_word() {
    assert_eq!(to_snake_case("Float32Array"), "float32_array");
    assert_eq!(to_snake_case("Int8Array"), "int8_array");
    assert_eq!(to_snake_case("Uint8ClampedArray"), "uint8_clamped_array");
    assert_eq!(to_snake_case("BigInt64Array"), "big_int64_array");
    assert_eq!(to_snake_case("Float64"), "float64");
}

#[test]
fn test_pascal_case() {
    assert_eq!(to_pascal_case("readableStream"), "ReadableStream");
    assert_eq!(to_pascal_case("my_type"), "MyType");
}

#[test]
fn test_keywords_not_escaped() {
    assert_eq!(to_snake_case("type"), "type");
    assert_eq!(to_snake_case("match"), "match");
    assert_eq!(to_snake_case("return"), "return");
    assert_eq!(to_snake_case("raw"), "raw");
}

#[test]
fn test_enum_variant() {
    assert_eq!(to_enum_variant("text"), "Text");
    assert_eq!(to_enum_variant("bytes"), "Bytes");
    assert_eq!(to_enum_variant("json"), "Json");
}

#[test]
fn test_dedup_names_no_collision() {
    let mut names = vec!["Foo".to_string(), "Bar".to_string(), "Baz".to_string()];
    dedup_names(&mut names);
    assert_eq!(names, &["Foo", "Bar", "Baz"]);
}

#[test]
fn test_dedup_names_collision() {
    let mut names = vec![
        "TextPlain".to_string(),
        "TextPlain".to_string(),
        "Other".to_string(),
    ];
    dedup_names(&mut names);
    assert_eq!(names, &["TextPlain", "TextPlain_2", "Other"]);
}

#[test]
fn test_dedup_names_triple_collision() {
    let mut names = vec!["A".to_string(), "A".to_string(), "A".to_string()];
    dedup_names(&mut names);
    assert_eq!(names, &["A", "A_2", "A_3"]);
}

#[test]
fn dedup_names_skips_a_suffix_already_taken() {
    let mut names = vec!["A".to_string(), "A".to_string(), "A_2".to_string()];
    dedup_names(&mut names);
    assert_eq!(names, &["A", "A_2", "A_2_2"]);
    let mut names = vec!["A".to_string(), "A_2".to_string(), "A".to_string()];
    dedup_names(&mut names);
    assert_eq!(names, &["A", "A_2", "A_3"]);
}

#[test]
fn module_specifiers_become_identifiers() {
    assert_eq!(module_specifier_to_ident("cloudflare:sockets"), "sockets");
    assert_eq!(module_specifier_to_ident("node:fs/promises"), "fs_promises");
    assert_eq!(module_specifier_to_ident("my-lib"), "my_lib");
}
