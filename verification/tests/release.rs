use monty_compat::coverage::lowering_coverage;
use monty_compat::lowering::{DiagnosticDisposition, LoweringDiagnostic, LoweringOutput};
use monty_compat::manifest::{CapabilityIndex, TargetFingerprint};
use monty_compat::release::{
    check_latest_channel, check_latest_manifest, decimal_text, disposition_name,
    gate_diagnostics, is_numeric_release, sha256_hex, BindingError, ChannelRelease,
    ManifestChannel, ReleaseRegistry, TranspilerRegistry,
};
use monty_compat::transpiler::Transpiler;

const ENGINE: &str = "0.5.0";

fn index(tag: &str, runtime: Option<&str>, features: &[(&str, &str)]) -> CapabilityIndex {
    CapabilityIndex::from_parts(
        TargetFingerprint {
            tag: tag.to_owned(),
            runtime_version: runtime.map(str::to_owned),
        },
        features
            .iter()
            .map(|(feature, status)| ((*feature).to_owned(), (*status).to_owned()))
            .collect(),
    )
    .expect("consistent target")
}

fn registry() -> ReleaseRegistry {
    ReleaseRegistry::new(
        "0.0.19".to_owned(),
        vec![
            ("0.0.18".to_owned(), "{\"target\": {\"tag\": \"v0.0.18\"}}".to_owned()),
            ("0.0.19".to_owned(), "{\"target\": {\"tag\": \"v0.0.19\"}}".to_owned()),
        ],
    )
}

#[test]
fn aliases_share_one_release_transpiler() {
    let bundled = registry();
    let verified = bundled.embedded_manifest("verified").expect("bundled manifest should load");
    let version = bundled.embedded_manifest("v0.0.19").expect("bundled manifest should load");
    let mut transpilers = TranspilerRegistry::new();
    transpilers.register(
        verified.release.clone(),
        Transpiler::new(index("v0.0.19", Some("0.0.19"), &[])),
    );
    transpilers.register(
        version.release.clone(),
        Transpiler::new(index("v0.0.19", Some("0.0.19"), &[])),
    );
    let first = transpilers.get(&verified.release).expect("registered");
    let second = transpilers.get(&version.release).expect("registered");
    assert!(std::ptr::eq(first, second));
}

#[test]
fn rejects_unknown_releases_without_fallback() {
    assert!(matches!(
        registry().embedded_manifest("0.0.20"),
        Err(BindingError::UnsupportedRelease(_))
    ));
}

#[test]
fn only_a_numeric_release_loses_its_v() {
    assert_eq!(
        registry().embedded_manifest("0.0.18").map(|selection| selection.release).ok(),
        Some("0.0.18".to_owned())
    );
    assert!(registry().embedded_manifest("vverified").is_err());
    assert!(is_numeric_release("0.0.19"));
    assert!(is_numeric_release("10.20.30.40"));
    assert!(!is_numeric_release("0.19"));
    assert!(!is_numeric_release("0..19"));
    assert!(!is_numeric_release("v0.0.19"));
}

fn channel_for(release: &str, manifest: &[u8], compatible: &[&str]) -> ManifestChannel {
    ManifestChannel {
        schema_version: 1,
        latest: ChannelRelease {
            release: release.to_owned(),
            manifest_url: format!("https://example.test/monty-v{release}.json"),
            sha256: sha256_hex(manifest),
            compatible_transpilers: compatible.iter().map(|version| (*version).to_owned()).collect(),
        },
    }
}

const MANIFEST: &[u8] = br#"{"target": {"tag": "v0.0.19", "runtime_version": "0.0.19"}}"#;

#[test]
fn accepts_hash_checked_engine_compatible_latest_manifest() {
    let channel = channel_for("0.0.19", MANIFEST, &[ENGINE]);
    let source = check_latest_channel(&channel, MANIFEST, ENGINE).expect("manifest should validate");
    assert_eq!(source.as_bytes(), MANIFEST);
    assert!(check_latest_manifest("0.0.19", &index("v0.0.19", Some("0.0.19"), &[])).is_ok());
}

#[test]
fn rejects_latest_manifest_with_wrong_hash() {
    let mut channel = channel_for("0.0.19", MANIFEST, &[ENGINE]);
    channel.latest.sha256 = "00".repeat(32);
    assert!(matches!(
        check_latest_channel(&channel, MANIFEST, ENGINE),
        Err(BindingError::Latest(message)) if message.contains("SHA-256 mismatch")
    ));
}

#[test]
fn rejects_latest_manifest_for_an_incompatible_engine() {
    let channel = channel_for("0.0.19", MANIFEST, &["999.0.0"]);
    assert!(matches!(
        check_latest_channel(&channel, MANIFEST, ENGINE),
        Err(BindingError::Latest(message)) if message.contains("newer compatible")
    ));
}

#[test]
fn rejects_unknown_non_supported_latest_features() {
    let capabilities = index("v0.0.19", Some("0.0.19"), &[("future.unknown", "unsupported_parse")]);
    assert!(matches!(
        check_latest_manifest("0.0.19", &capabilities),
        Err(BindingError::Latest(message)) if message.contains("future.unknown")
    ));
    let known = index("v0.0.19", Some("0.0.19"), &[("async.for", "unsupported_parse"), ("new.feature", "supported")]);
    assert!(check_latest_manifest("0.0.19", &known).is_ok());
}

#[test]
fn rejects_channel_problems_in_order() {
    let mut channel = channel_for("0.0.19", MANIFEST, &[ENGINE]);
    channel.schema_version = 2;
    assert!(matches!(
        check_latest_channel(&channel, MANIFEST, ENGINE),
        Err(BindingError::Latest(message)) if message == "channel schema 2 is unsupported; expected 1"
    ));
    let channel = channel_for("latest", MANIFEST, &[ENGINE]);
    assert!(matches!(
        check_latest_channel(&channel, MANIFEST, ENGINE),
        Err(BindingError::Latest(message)) if message == "channel release \"latest\" is not a numeric Monty version"
    ));
    let mut channel = channel_for("0.0.19", MANIFEST, &[ENGINE]);
    channel.latest.manifest_url = "http://releases.invalid/monty-v0.0.19.json".to_owned();
    assert!(matches!(
        check_latest_channel(&channel, MANIFEST, ENGINE),
        Err(BindingError::Latest(message)) if message == "manifest URL must use HTTPS"
    ));
    let mut channel = channel_for("0.0.19", b"\xff", &[ENGINE]);
    channel.latest.sha256 = channel.latest.sha256.to_uppercase();
    assert!(matches!(
        check_latest_channel(&channel, b"\xff", ENGINE),
        Err(BindingError::Latest(message)) if message.starts_with("manifest is not UTF-8: ")
    ));
    assert!(matches!(
        check_latest_manifest("0.0.20", &index("v0.0.19", None, &[])),
        Err(BindingError::Latest(message)) if message == "channel says Monty 0.0.20, but manifest targets 0.0.19"
    ));
}

#[test]
fn digests_are_lowercase_hex() {
    assert_eq!(
        sha256_hex(b"abc"),
        "ba7816bf8f01cfea414140de5dae2223b00361a396177a9cb410ff61f20015ad"
    );
    assert_eq!(decimal_text(0), "0");
    assert_eq!(decimal_text(1234), "1234");
}

fn diagnostic(disposition: DiagnosticDisposition) -> LoweringDiagnostic {
    LoweringDiagnostic {
        rule: "rule".to_owned(),
        disposition,
        start: 0,
        end: 1,
        message: "message".to_owned(),
    }
}

#[test]
fn only_fully_applied_lowerings_are_returned() {
    let applied = LoweringOutput {
        code: "x = 1\n".to_owned(),
        changed: true,
        target_tag: "v0.0.19".to_owned(),
        diagnostics: vec![diagnostic(DiagnosticDisposition::Applied)],
    };
    assert_eq!(gate_diagnostics(applied).ok(), Some("x = 1\n".to_owned()));
    let refused = LoweringOutput {
        code: "x = 1\n".to_owned(),
        changed: false,
        target_tag: "v0.0.19".to_owned(),
        diagnostics: vec![
            diagnostic(DiagnosticDisposition::Applied),
            diagnostic(DiagnosticDisposition::NotLowerable),
            diagnostic(DiagnosticDisposition::NeedsReview),
        ],
    };
    match gate_diagnostics(refused) {
        Err(BindingError::UnsafeDiagnostics(kept)) => {
            assert_eq!(kept.len(), 2);
            assert_eq!(kept[0].disposition, DiagnosticDisposition::NotLowerable);
            assert_eq!(disposition_name(kept[1].disposition), "needs_review");
        }
        other => panic!("unexpected outcome {other:?}"),
    }
}

#[test]
fn coverage_lists_each_feature_once_in_order() {
    let table = lowering_coverage();
    assert!(table.windows(2).all(|pair| pair[0].feature < pair[1].feature));
    assert!(!table.is_empty());
}

/// The rewrite engine's verdict on a generator: suspension at `yield` has no
/// Monty form, so the statement is reported as not lowerable and left alone.
fn refuse_generators(
    source: &str,
    _capabilities: &CapabilityIndex,
) -> Result<LoweringOutput, monty_compat::lowering::LoweringError> {
    let diagnostics = match source.find("yield") {
        Some(start) => vec![LoweringDiagnostic {
            rule: "generator.suspension".to_owned(),
            disposition: DiagnosticDisposition::NotLowerable,
            start,
            end: start + "yield 1".len(),
            message: "generator suspension must not be silently rewritten".to_owned(),
        }],
        None => Vec::new(),
    };
    Ok(LoweringOutput {
        code: source.to_owned(),
        changed: false,
        target_tag: "v0.0.19".to_owned(),
        diagnostics,
    })
}

#[test]
fn refuses_non_representable_source() {
    let capabilities = CapabilityIndex::from_parts(
        TargetFingerprint { tag: "v0.0.19".to_owned(), runtime_version: Some("0.0.19".to_owned()) },
        Vec::new(),
    )
    .expect("consistent target");
    let mut transpiler = Transpiler::new(capabilities);
    let output = transpiler
        .transpile("def values():\n    yield 1\n", refuse_generators)
        .expect("lowering runs");
    let error = gate_diagnostics((*output).clone())
        .expect_err("generator suspension must not be silently rewritten");
    assert!(matches!(error, BindingError::UnsafeDiagnostics(_)));
}
