use monty_compat::discovery::{
    build_minimization_report, GeneratedProbeConfig, GeneratedProbeResult, GeneratedProbeStatus,
    MinimizationConfig, MinimizationOutcome, MinimizedFailure, MinimizeResponse, MontyResponse,
    WorkerFailure, candidate_preserves, inert_outcome_result, minimization_subject,
    minimized_failure, PreparedGeneratedProbe,
};
use monty_compat::generated_run::GeneratedRun;
use monty_compat::promotion::build_promotion_report;
use monty_compat::wire::{JsonNumber, JsonValue};

fn minimized(seed: u64, status: GeneratedProbeStatus, hash: &str) -> MinimizedFailure {
    MinimizedFailure {
        seed,
        original_status: status,
        outcome: MinimizationOutcome::Minimized,
        original_source_sha256: "ff".to_owned(),
        original_bytes: 10,
        original_ast_node_count: 4,
        original_error_type: "MontySyntaxError".to_owned(),
        original_error_message: "bad".to_owned(),
        minimized_source: Some(format!("source {hash}")),
        minimized_source_sha256: Some(hash.to_owned()),
        minimized_bytes: Some(8),
        minimized_ast_nodes: vec!["Module".to_owned()],
        minimized_ast_node_count: Some(1),
        checker_calls: 3,
        error_type: None,
        error_message: None,
    }
}

#[test]
fn minimized_failures_group_into_sorted_candidates() {
    let report = build_minimization_report(
        MinimizationConfig::default(),
        None,
        3,
        vec![
            minimized(7, GeneratedProbeStatus::UnsupportedRuntime, "bbbbbbbbbbbbbbbbbbbb"),
            minimized(3, GeneratedProbeStatus::UnsupportedParse, "cccc"),
            minimized(9, GeneratedProbeStatus::UnsupportedRuntime, "bbbbbbbbbbbbbbbbbbbb"),
        ],
    );
    let promotion = build_promotion_report(&report);
    assert_eq!(promotion.candidate_count, 2);
    assert_eq!(promotion.candidates[0].id, "generated.unsupported_parse.cccc");
    assert_eq!(promotion.candidates[0].seeds, vec![3]);
    assert_eq!(promotion.candidates[1].id, "generated.unsupported_runtime.bbbbbbbbbbbbbbbb");
    assert_eq!(promotion.candidates[1].seeds, vec![7, 9]);
    assert_eq!(promotion.candidates[1].occurrences, 2);
    assert_eq!(promotion.candidates[1].disposition, "needs_semantic_probe");
}

fn prepared() -> PreparedGeneratedProbe {
    PreparedGeneratedProbe {
        seed: 4,
        source: "x = (".to_owned(),
        source_sha256: "abcd".to_owned(),
        ast_nodes: vec!["Module".to_owned()],
        ast_node_count: 1,
    }
}

#[test]
fn inert_outcomes_are_classified_and_fingerprinted() {
    let completed = inert_outcome_result(
        Ok(MontyResponse::Return { value: JsonValue::Null, is_none: true, repr: "None".to_owned() }),
        prepared(),
    );
    assert_eq!(completed.status, GeneratedProbeStatus::Completed);
    assert!(completed.fully_accepted);
    let mismatch = inert_outcome_result(
        Ok(MontyResponse::Return { value: JsonValue::Number(JsonNumber::PosInt(3)), is_none: false, repr: "3".to_owned() }),
        prepared(),
    );
    assert_eq!(mismatch.status, GeneratedProbeStatus::SemanticMismatch);
    assert_eq!(mismatch.error_message.as_deref(), Some("inert source returned 3"));
    let timeout = inert_outcome_result(
        Err(WorkerFailure { timed_out: true, message: "slow".to_owned() }),
        prepared(),
    );
    assert_eq!(timeout.status, GeneratedProbeStatus::Timeout);
    let parse = inert_outcome_result(
        Ok(MontyResponse::CompileError {
            error_type: "SyntaxError".to_owned(),
            error_message: "bad".to_owned(),
        }),
        prepared(),
    );
    assert_eq!(parse.status, GeneratedProbeStatus::UnsupportedParse);
    assert_eq!(parse.error_type.as_deref(), Some("MontySyntaxError"));
    let subject = minimization_subject(&parse).expect("fingerprinted failure");
    assert!(candidate_preserves(
        &subject.fingerprint,
        MontyResponse::CompileError { error_type: "SyntaxError".to_owned(), error_message: "bad".to_owned() }
    ));
    assert!(!candidate_preserves(
        &subject.fingerprint,
        MontyResponse::RuntimeError { error_type: "SyntaxError".to_owned(), error_message: "bad".to_owned() }
    ));
    let failure = minimized_failure(
        &parse,
        subject,
        MinimizeResponse::Unchanged { checks: 2 },
    );
    assert_eq!(failure.outcome, MinimizationOutcome::Unchanged);
    assert_eq!(failure.original_bytes, 5);
    assert_eq!(failure.checker_calls, 2);
}

fn worker_failure(seed: u64) -> GeneratedProbeResult {
    monty_compat::discovery::generation_failure_result(
        seed,
        WorkerFailure { timed_out: false, message: "closed".to_owned() },
    )
}

#[test]
fn a_failed_worker_halts_the_run() {
    let config = GeneratedProbeConfig { seed_start: 10, seed_count: 5, ..GeneratedProbeConfig::default() };
    let mut run = GeneratedRun::start(config, MinimizationConfig::disabled()).expect("valid config");
    assert_eq!(run.next_seed(), Some(10));
    let first = inert_outcome_result(
        Ok(MontyResponse::Return { value: JsonValue::Null, is_none: true, repr: "None".to_owned() }),
        prepared(),
    );
    assert!(run.minimization_request(&first).is_none());
    run.record_result(first);
    assert_eq!(run.next_seed(), Some(11));
    run.record_result(worker_failure(11));
    assert_eq!(run.next_seed(), None);
    let report = run.finish(Some("1.0".to_owned()), None);
    assert_eq!(report.generated_corpus.results.len(), 2);
    assert_eq!(report.minimized_failures.attempted, 0);
    assert_eq!(report.promotion_candidates.candidate_count, 0);
}

#[test]
fn recorded_results_follow_the_seed_cursor() {
    let config = GeneratedProbeConfig { seed_start: 20, seed_count: 3, ..GeneratedProbeConfig::default() };
    let mut run = GeneratedRun::start(config, MinimizationConfig::disabled()).expect("valid config");
    while let Some(seed) = run.next_seed() {
        let mut result = inert_outcome_result(
            Ok(MontyResponse::Return { value: JsonValue::Null, is_none: true, repr: "None".to_owned() }),
            prepared(),
        );
        result.seed = seed;
        run.record_result(result);
    }
    let report = run.finish(None, None);
    let seeds: Vec<u64> = report.generated_corpus.results.iter().map(|result| result.seed).collect();
    assert_eq!(seeds, vec![20, 21, 22]);
}
