use monty_compat::extract::{is_safe_release_tag, normalize_release_tag, parse_release_metadata};

#[test]
fn release_tags_are_restricted_to_url_safe_ascii() {
    assert!(is_safe_release_tag("v0.0.19"));
    assert!(is_safe_release_tag("release_candidate-1"));
    assert!(!is_safe_release_tag(""));
    assert!(!is_safe_release_tag("../main"));
    assert!(!is_safe_release_tag("v1?download=true"));
}

#[test]
fn release_metadata_is_normalized_to_an_exact_archive() {
    let metadata = parse_release_metadata(
        br#"{
            "tag_name": "v0.0.19",
            "published_at": "2025-01-02T03:04:05Z",
            "html_url": "https://github.com/pydantic/monty/releases/tag/v0.0.19"
        }"#,
    )
    .expect("release metadata should parse");
    assert_eq!(metadata.runtime_version, "0.0.19");
    assert_eq!(
        metadata.archive_url,
        "https://github.com/pydantic/monty/archive/refs/tags/v0.0.19.zip"
    );
}

#[test]
fn release_aliases_are_normalized_without_accepting_paths() {
    assert_eq!(
        normalize_release_tag("0.0.19").expect("version should normalize"),
        Some("v0.0.19".to_owned())
    );
    assert_eq!(
        normalize_release_tag("latest").expect("latest should normalize"),
        None
    );
    assert!(normalize_release_tag("../main").is_err());
}

#[test]
fn tagged_release_aliases_keep_their_prefix() {
    assert_eq!(
        normalize_release_tag("v0.0.19").expect("tag should normalize"),
        Some("v0.0.19".to_owned())
    );
}

#[test]
fn refused_release_names_are_quoted_in_the_message() {
    match normalize_release_tag("../main") {
        Err(monty_compat::extract::ExtractError::InvalidReleaseResponse(message)) => {
            assert_eq!(message, "release \"../main\" contains unsupported characters");
        }
        other => panic!("unexpected outcome {other:?}"),
    }
    match parse_release_metadata(br#"{"tag_name": "v1?x"}"#) {
        Err(monty_compat::extract::ExtractError::InvalidReleaseResponse(message)) => {
            assert_eq!(message, "tag_name \"v1?x\" contains unsupported characters");
        }
        other => panic!("unexpected outcome {other:?}"),
    }
}
