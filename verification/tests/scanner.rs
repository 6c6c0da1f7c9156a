use monty_compat::scanner::{delimited_contents, matching_delimiter, without_feature_gated_items};

#[test]
fn delimiter_scanner_ignores_strings_and_comments() {
    let source = r#"fn demo() { let text = "}"; /* } */ value() }"#;
    let start = source.find('{').unwrap_or(source.len());
    let body = delimited_contents(source, start, b'{', b'}');
    assert!(body.is_some_and(|body| body.contains("value()")));
}

#[test]
fn truncated_delimiters_are_rejected_without_unwinding() {
    assert_eq!(delimited_contents("fn demo() {", 10, b'{', b'}'), None);
    assert_eq!(delimited_contents("", 0, b'{', b'}'), None);
}

#[test]
fn feature_gated_items_are_masked_but_newlines_survive() {
    let source = "before\n#[cfg(feature = \"test\")]\nvalue(),\nafter\n";
    let masked = without_feature_gated_items(source).expect("static pattern should compile");
    assert!(!masked.contains("value"));
    assert_eq!(masked.lines().count(), source.lines().count());
    assert!(masked.contains("before"));
    assert!(masked.contains("after"));
}

#[test]
fn nested_delimiters_close_at_the_matching_depth() {
    let source = "(a (b) [c] \"(\" // )\n d)";
    assert_eq!(matching_delimiter(source, 0, b'(', b')'), Some(source.len() - 1));
    assert_eq!(matching_delimiter(source, 1, b'(', b')'), None);
}

#[test]
fn a_gated_block_is_masked_through_its_closing_brace() {
    let source = "#[cfg(feature = \"x\")]\n#[inline]\nfn gated() {\n    call();\n}\nfn kept() {}\n";
    let masked = without_feature_gated_items(source).expect("static pattern should compile");
    assert!(!masked.contains("gated"));
    assert!(!masked.contains("inline"));
    assert!(masked.contains("fn kept() {}"));
    assert_eq!(masked.len(), source.len());
}
