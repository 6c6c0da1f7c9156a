use std::io::{Cursor, Write};

use monty_compat::capability_graph::extract_zip;
use monty_compat::download::{check_body_length, check_download_url, check_response, read_limit, response_content_length};
use monty_compat::extract::{ExtractError, SourceBundle, INTERN_REL, MODULES_REL, TYPES_REL};

fn zip_of(entries: &[(&str, &str)]) -> Vec<u8> {
    let mut writer = zip::ZipWriter::new(Cursor::new(Vec::new()));
    let options = zip::write::SimpleFileOptions::default().compression_method(zip::CompressionMethod::Stored);
    for (name, contents) in entries {
        if name.ends_with('/') {
            writer.add_directory(name.trim_end_matches('/'), options).expect("directory entry");
        } else {
            writer.start_file(*name, options).expect("file entry");
            writer.write_all(contents.as_bytes()).expect("file contents");
        }
    }
    writer.finish().expect("archive finishes").into_inner()
}

fn complete_tree(root: &str) -> Vec<(String, String)> {
    vec![
        (format!("{root}/"), String::new()),
        (format!("{root}/{INTERN_REL}"), "pub enum StaticStrings {\n    Len,\n}\n".to_string()),
        (format!("{root}/{TYPES_REL}"), "fn from_builtin_name() {}\n".to_string()),
        (format!("{root}/{MODULES_REL}"), "pub enum StandardLib {\n    Math,\n}\n".to_string()),
        (format!("{root}/crates/monty/src/builtins/mod.rs"), "pub enum BuiltinsFunctions {\n    Len,\n}\n".to_string()),
        (format!("{root}/crates/monty/src/exception_private.rs"), "pub enum ExcType {\n    ValueError,\n}\n".to_string()),
        (format!("{root}/README.md"), "not rust".to_string()),
        (format!("{root}/crates/monty/src/NOTES.RS"), "// upper-case extension still counts\n".to_string()),
        (format!("{root}/crates/monty/src/.rs"), "hidden file without an extension".to_string()),
    ]
}

fn as_refs(entries: &[(String, String)]) -> Vec<(&str, &str)> {
    entries.iter().map(|(name, contents)| (name.as_str(), contents.as_str())).collect()
}

#[test]
fn a_release_archive_yields_its_rust_sources() {
    let entries = complete_tree("monty-0.0.19");
    let bytes = zip_of(&as_refs(&entries));
    let bundle = SourceBundle::from_zip_bytes(&bytes).expect("archive is well formed");
    assert_eq!(bundle.rust_files.len(), 6);
    assert!(bundle.rust_files.get("crates/monty/src/NOTES.RS").is_some());
    assert!(bundle.rust_files.get("crates/monty/src/.rs").is_none());
    assert!(bundle.rust_files.get("README.md").is_none());
    assert!(bundle.intern.contains("StaticStrings"));
    assert!(bundle.builtins.contains("BuiltinsFunctions"));
    let graph = extract_zip(&bytes).expect("archive extracts");
    assert_eq!(graph.builtin_functions.len(), 1);
}

#[test]
fn archives_with_two_top_level_directories_are_refused() {
    let mut entries = complete_tree("monty-a");
    entries.push(("monty-b/crates/monty/src/other.rs".to_string(), "fn other() {}".to_string()));
    let bytes = zip_of(&as_refs(&entries));
    assert!(matches!(SourceBundle::from_zip_bytes(&bytes), Err(ExtractError::InvalidArchive(_))));
}

#[test]
fn unsafe_entry_paths_are_refused() {
    let bytes = zip_of(&[("monty/../escape.rs", "fn escape() {}")]);
    assert!(matches!(SourceBundle::from_zip_bytes(&bytes), Err(ExtractError::InvalidArchive(_))));
}

#[test]
fn non_utf8_sources_are_reported_with_their_path() {
    let mut writer = zip::ZipWriter::new(Cursor::new(Vec::new()));
    let options = zip::write::SimpleFileOptions::default().compression_method(zip::CompressionMethod::Stored);
    writer.start_file("monty/crates/monty/src/bad.rs", options).expect("file entry");
    writer.write_all(&[0xff, 0xfe]).expect("file contents");
    let bytes = writer.finish().expect("archive finishes").into_inner();
    match SourceBundle::from_zip_bytes(&bytes) {
        Err(ExtractError::InvalidArchiveUtf8 { path }) => assert_eq!(path, "crates/monty/src/bad.rs"),
        Err(other) => panic!("unexpected error: {other:?}"),
        Ok(_) => panic!("a non-UTF-8 source was accepted"),
    }
}

#[test]
fn archives_missing_a_table_report_the_missing_source() {
    let bytes = zip_of(&[("monty/crates/monty/src/lib.rs", "fn lib() {}")]);
    assert!(matches!(SourceBundle::from_zip_bytes(&bytes), Err(ExtractError::MissingSource { .. })));
}

#[test]
fn bytes_that_are_not_an_archive_are_refused() {
    assert!(matches!(SourceBundle::from_zip_bytes(b"not a zip"), Err(ExtractError::InvalidArchive(_))));
    assert!(matches!(extract_zip(b""), Err(ExtractError::InvalidArchive(_))));
}

#[test]
fn downloader_rejects_non_http_schemes_before_any_transfer() {
    assert!(matches!(
        check_download_url("file:///tmp/monty.zip"),
        Err(ExtractError::InvalidReleaseResponse(message)) if message == "unsupported URL scheme in \"file:///tmp/monty.zip\""
    ));
    assert!(check_download_url("https://github.com/pydantic/monty").is_ok());
    assert!(check_download_url("http://localhost:8080/a.zip").is_ok());
}

#[test]
fn content_length_is_read_case_insensitively() {
    let headers = vec![
        ("Server".to_string(), "test".to_string()),
        ("Content-Length".to_string(), "+42".to_string()),
        ("content-length".to_string(), "7".to_string()),
    ];
    assert_eq!(response_content_length(&headers), Some(42));
    let invalid = vec![("CONTENT-LENGTH".to_string(), "4x".to_string())];
    assert_eq!(response_content_length(&invalid), None);
    assert_eq!(response_content_length(&Vec::new()), None);
}

#[test]
fn responses_are_checked_by_status_and_declared_length() {
    assert!(check_response("u", 200, "OK", Some(10), 10).is_ok());
    assert!(matches!(
        check_response("u", 404, "Not Found", None, 10),
        Err(ExtractError::HttpStatus { status: 404, .. })
    ));
    assert!(matches!(
        check_response("u", 204, "No Content", Some(11), 10),
        Err(ExtractError::DownloadTooLarge { limit: 10, .. })
    ));
    assert_eq!(read_limit("u", 10).ok(), Some(11));
    assert!(check_body_length("u", 10, 10).is_ok());
    assert!(matches!(check_body_length("u", 11, 10), Err(ExtractError::DownloadTooLarge { .. })));
}
