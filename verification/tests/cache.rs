use std::sync::Arc;

use monty_compat::lowering::{LoweringDiagnostic, LoweringError, LoweringOutput};
use monty_compat::manifest::{CapabilityIndex, TargetFingerprint};
use monty_compat::transpiler::{weight_from_capacities, CacheConfig, CacheEntry, Transpiler};

const MIB: usize = 1024 * 1024;

fn capabilities() -> CapabilityIndex {
    CapabilityIndex::from_parts(
        TargetFingerprint {
            tag: "v0.0.19".to_owned(),
            runtime_version: Some("0.0.19".to_owned()),
        },
        vec![("syntax.match".to_owned(), "unsupported_parse".to_owned())],
    )
    .expect("consistent target")
}

fn transpiler(config: CacheConfig) -> Transpiler {
    Transpiler::with_cache_config(capabilities(), config)
}

/// A stand-in for the rewrite engine: it renames `match` and reports whether it changed the source.
fn lower(source: &str, _capabilities: &CapabilityIndex) -> Result<LoweringOutput, LoweringError> {
    let code = source.replace("match value:", "if True:");
    Ok(LoweringOutput {
        changed: code != source,
        code,
        target_tag: "v0.0.19".to_owned(),
        diagnostics: Vec::new(),
    })
}

#[test]
fn exact_source_hit_reuses_the_lowered_artifact() -> Result<(), LoweringError> {
    let mut transpiler = transpiler(CacheConfig::new(8, MIB));
    let source = "value = 2\nmatch value:\n    case 2:\n        result = 'two'\n    case _:\n        result = 'other'\nresult\n";

    let first = transpiler.transpile(source, lower)?;
    let after_miss = transpiler.cache_stats();
    let second = transpiler.transpile(source, lower)?;
    let after_hit = transpiler.cache_stats();

    assert!(first.changed);
    assert!(Arc::ptr_eq(&first, &second));
    assert_eq!(after_miss.misses, 1);
    assert_eq!(after_miss.insertions, 1);
    assert_eq!(after_miss.hits, 0);
    assert_eq!(after_miss.entries, 1);
    assert!(after_miss.bytes > source.len() + first.code.len());
    assert!(after_miss.bytes <= MIB);
    assert_eq!(after_hit.hits, 1);
    assert_eq!(after_hit.misses, 1);
    assert_eq!(after_hit.entries, 1);
    Ok(())
}

#[test]
fn lru_eviction_retains_the_recent_entry() -> Result<(), LoweringError> {
    let mut transpiler = transpiler(CacheConfig::new(2, MIB));
    let first = "value = 1\nvalue\n";
    let second = "value = 2\nvalue\n";
    let third = "value = 3\nvalue\n";

    transpiler.transpile(first, lower)?;
    transpiler.transpile(second, lower)?;
    transpiler.transpile(first, lower)?;
    transpiler.transpile(third, lower)?;
    let before_second_lookup = transpiler.cache_stats();
    transpiler.transpile(second, lower)?;
    let after_second_lookup = transpiler.cache_stats();

    assert_eq!(before_second_lookup.hits, 1);
    assert_eq!(before_second_lookup.evictions, 1);
    assert_eq!(before_second_lookup.entries, 2);
    assert_eq!(after_second_lookup.misses, before_second_lookup.misses + 1);
    assert_eq!(after_second_lookup.evictions, 2);
    assert_eq!(after_second_lookup.entries, 2);
    Ok(())
}

#[test]
fn oversized_artifact_is_returned_but_not_cached() -> Result<(), LoweringError> {
    let mut transpiler = transpiler(CacheConfig::new(8, 16));
    let source = "a_long_variable_name = 123\na_long_variable_name\n";

    let first = transpiler.transpile(source, lower)?;
    let second = transpiler.transpile(source, lower)?;
    let stats = transpiler.cache_stats();

    assert_eq!(first, second);
    assert!(!Arc::ptr_eq(&first, &second));
    assert_eq!(stats.misses, 2);
    assert_eq!(stats.skipped, 2);
    assert_eq!(stats.entries, 0);
    assert_eq!(stats.bytes, 0);
    Ok(())
}

#[test]
fn disabled_cache_always_bypasses_storage() -> Result<(), LoweringError> {
    let mut transpiler = transpiler(CacheConfig::disabled());
    let source = "value = 1\nvalue\n";

    let first = transpiler.transpile(source, lower)?;
    let second = transpiler.transpile(source, lower)?;
    let stats = transpiler.cache_stats();

    assert_eq!(first, second);
    assert!(!Arc::ptr_eq(&first, &second));
    assert_eq!(stats.bypasses, 2);
    assert_eq!(stats.hits, 0);
    assert_eq!(stats.misses, 0);
    assert_eq!(stats.entries, 0);
    Ok(())
}

#[test]
fn clear_removes_entries_without_changing_release_identity() -> Result<(), LoweringError> {
    let mut transpiler = transpiler(CacheConfig::new(8, MIB));
    transpiler.transpile("value = 1\nvalue\n", lower)?;

    transpiler.clear_cache();
    let stats = transpiler.cache_stats();

    assert_eq!(transpiler.target().tag, "v0.0.19");
    assert_eq!(stats.entries, 0);
    assert_eq!(stats.bytes, 0);
    assert_eq!(stats.insertions, 1);
    Ok(())
}

#[test]
fn validates_release_and_runtime_identity() {
    let result = CapabilityIndex::from_parts(
        TargetFingerprint {
            tag: "v0.0.19".to_owned(),
            runtime_version: Some("0.0.18".to_owned()),
        },
        Vec::new(),
    );
    assert!(matches!(
        result,
        Err(monty_compat::manifest::ManifestError::VersionMismatch { .. })
    ));
}

#[test]
fn failed_lowerings_are_not_cached() {
    let mut transpiler = transpiler(CacheConfig::new(8, MIB));
    let failing = |_: &str, _: &CapabilityIndex| -> Result<LoweringOutput, LoweringError> {
        Err(LoweringError::Parse("bad".to_owned()))
    };
    assert!(transpiler.transpile("x", failing).is_err());
    assert_eq!(transpiler.cache_stats().entries, 0);
    assert_eq!(transpiler.cache_stats().misses, 1);
}

#[test]
fn fresh_transpilers_start_empty_with_zero_counters() {
    let stats = Transpiler::new(capabilities()).cache_stats();
    assert_eq!(stats, monty_compat::transpiler::CacheStats {
        hits: 0,
        misses: 0,
        insertions: 0,
        evictions: 0,
        skipped: 0,
        bypasses: 0,
        entries: 0,
        bytes: 0,
    });
}

#[test]
fn weight_adds_fixed_headers_buffers_and_messages() {
    let fixed = std::mem::size_of::<String>()
        + std::mem::size_of::<CacheEntry>()
        + std::mem::size_of::<LoweringOutput>();
    let diagnostic = std::mem::size_of::<LoweringDiagnostic>();
    assert_eq!(weight_from_capacities(3, 10, 7, 0, &vec![]), Some(fixed + 20));
    assert_eq!(
        weight_from_capacities(3, 10, 7, 2, &vec![5, 6]),
        Some(fixed + 20 + 2 * diagnostic + 11)
    );
}

#[test]
fn weight_that_overflows_is_absent() {
    assert_eq!(weight_from_capacities(usize::MAX, 1, 0, 0, &vec![]), None);
    assert_eq!(weight_from_capacities(0, 0, 0, usize::MAX, &vec![]), None);
    assert_eq!(weight_from_capacities(0, 0, 0, 0, &vec![usize::MAX, 1]), None);
}
