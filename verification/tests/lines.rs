use monty_compat::lines::{package_version, parse_version, quoted, split_text};

#[test]
fn accepts_numeric_releases_only() {
    assert_eq!(parse_version("0.0.19"), Some(vec![0, 0, 19]));
    assert_eq!(parse_version("0.0.rc1"), None);
}

#[test]
fn finds_an_exact_package_block() {
    let lock = r#"[[package]]
name = "other"
version = "9.0.0"

[[package]]
name = "monty"
version = "0.0.19"
"#;
    assert_eq!(package_version(lock, "monty"), Some("0.0.19"));
}

#[test]
fn a_package_name_prefix_is_not_a_match() {
    let lock = "[[package]]\nname = \"monty-extra\"\nversion = \"1.0.0\"\n";
    assert_eq!(package_version(lock, "monty"), None);
}

#[test]
fn versions_need_at_least_three_parts() {
    assert_eq!(parse_version("1.2"), None);
    assert_eq!(parse_version("1.2.3.4"), Some(vec![1, 2, 3, 4]));
}

#[test]
fn quoted_values_lose_exactly_their_quotes() {
    assert_eq!(quoted("\"0.0.19\""), Some("0.0.19"));
    assert_eq!(quoted("\""), None);
    assert_eq!(quoted("0.0.19"), None);
}

#[test]
fn text_is_split_like_str_split() {
    assert_eq!(split_text("a[[package]]b[[package]]", "[[package]]"), vec!["a", "b", ""]);
}
