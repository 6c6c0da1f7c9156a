use monty_compat::discovery::{
    build_generated_report, build_minimization_report, compile_error_status,
    normalize_monty_error, validate_catalog, GeneratedProbeConfig, GeneratedProbeResult,
    GeneratedProbeStatus, MinimizationConfig, MinimizationOutcome, MinimizedFailure, ProbeSpec,
    ProbeStatus,
};
use monty_compat::line_reader::{read_bounded_line, BoundedLine, LineError, LineStep};

#[test]
fn config_rejects_zero_limits_and_overflowing_seed_ranges() {
    assert!(GeneratedProbeConfig {
        node_limit: 0,
        ..GeneratedProbeConfig::default()
    }
    .validate()
    .is_err());
    assert!(GeneratedProbeConfig {
        seed_start: u64::MAX,
        seed_count: 1,
        ..GeneratedProbeConfig::default()
    }
    .validate()
    .is_err());
}

#[test]
fn empty_report_contains_every_stable_status() {
    let report = build_generated_report(GeneratedProbeConfig::default(), None, Vec::new());
    assert_eq!(report.summary.len(), GeneratedProbeStatus::all().len());
    assert!((0..report.summary.len()).all(|index| *report.summary.value_at(index) == 0));
}

#[test]
fn bounded_reader_accepts_one_line_and_rejects_oversize() {
    assert_eq!(
        read_bounded_line(b"{\"ok\":true}\n", 32).expect("bounded fixture should read"),
        Some("{\"ok\":true}".to_owned())
    );
    assert!(read_bounded_line(b"123456\n", 4).is_err());
}

#[test]
fn a_line_without_newline_at_the_end_is_cut_off() {
    assert_eq!(read_bounded_line(b"", 8), Ok(None));
    assert_eq!(read_bounded_line(b"abc", 8), Err(LineError::UnexpectedEof));
    assert_eq!(read_bounded_line(b"\xff\n", 8), Err(LineError::InvalidUtf8));
}

#[test]
fn chunked_reads_agree_with_a_whole_read() {
    let mut line = BoundedLine::new(32);
    assert_eq!(line.feed(b"{\"ok\""), (5, LineStep::NeedMore));
    assert_eq!(
        line.feed(b":true}\nrest"),
        (7, LineStep::Complete("{\"ok\":true}".to_owned()))
    );
    let mut short = BoundedLine::new(4);
    assert_eq!(short.feed(b"123"), (3, LineStep::NeedMore));
    assert_eq!(short.feed(b"456\n"), (0, LineStep::Failed(LineError::TooLong)));
}

#[test]
fn minimizer_needs_checks_when_enabled() {
    assert!(MinimizationConfig { enabled: true, max_checks: 0 }.validate().is_err());
    assert!(MinimizationConfig::disabled().validate().is_ok());
    assert!(MinimizationConfig::default().validate().is_ok());
}

#[test]
fn monty_errors_are_named_by_stage() {
    assert_eq!(
        compile_error_status("SyntaxError", "bad"),
        GeneratedProbeStatus::UnsupportedParse
    );
    assert_eq!(
        compile_error_status("NotImplementedError", "The Syntax Parser does not yet support match"),
        GeneratedProbeStatus::UnsupportedParse
    );
    assert_eq!(
        compile_error_status("ModuleNotFoundError", "no module"),
        GeneratedProbeStatus::UnsupportedRuntime
    );
    assert_eq!(
        compile_error_status("TypeError", "bad"),
        GeneratedProbeStatus::UnsupportedTypeCheck
    );
    assert_eq!(
        normalize_monty_error(ProbeStatus::UnsupportedRuntime, "ValueError".to_owned(), "bad".to_owned()),
        ("MontyRuntimeError".to_owned(), "ValueError: bad".to_owned())
    );
    assert_eq!(
        normalize_monty_error(ProbeStatus::UnsupportedRuntime, "ValueError".to_owned(), String::new()),
        ("MontyRuntimeError".to_owned(), "ValueError".to_owned())
    );
    assert_eq!(
        normalize_monty_error(ProbeStatus::UnsupportedParse, "SyntaxError".to_owned(), "bad".to_owned()),
        ("MontySyntaxError".to_owned(), "bad".to_owned())
    );
}

fn probe(id: &str) -> ProbeSpec {
    ProbeSpec {
        id: id.to_owned(),
        category: "syntax".to_owned(),
        source: "1 + 2".to_owned(),
        description: String::new(),
    }
}

#[test]
fn catalogs_need_unique_complete_probes() {
    assert!(validate_catalog(&[probe("a"), probe("b")]).is_ok());
    assert!(validate_catalog(&[probe("a"), probe("a")]).is_err());
    assert!(validate_catalog(&[probe("")]).is_err());
}

fn result(seed: u64, status: GeneratedProbeStatus, nodes: &[&str]) -> GeneratedProbeResult {
    GeneratedProbeResult {
        seed,
        status,
        fully_accepted: status == GeneratedProbeStatus::Completed,
        ast_nodes: nodes.iter().map(|node| (*node).to_owned()).collect(),
        ast_node_count: nodes.len(),
        source_sha256: None,
        source: None,
        error_type: None,
        error_message: None,
    }
}

#[test]
fn generated_report_counts_statuses_and_node_outcomes() {
    let report = build_generated_report(
        GeneratedProbeConfig::default(),
        Some("1.0".to_owned()),
        vec![
            result(0, GeneratedProbeStatus::Completed, &["Expr", "Name", "Name"]),
            result(1, GeneratedProbeStatus::Crash, &["Name"]),
        ],
    );
    assert_eq!(report.fully_accepted, 1);
    assert_eq!(report.summary.get("completed"), Some(&1));
    assert_eq!(report.summary.get("crash"), Some(&1));
    assert_eq!(report.summary.get("timeout"), Some(&0));
    let names = report.ast_node_outcomes.get("Name").expect("Name is tallied");
    assert_eq!(names.get("completed"), Some(&2));
    assert_eq!(names.get("crash"), Some(&1));
    assert_eq!(names.get("timeout"), None);
}

fn failure(seed: u64, outcome: MinimizationOutcome, hash: Option<&str>, checks: u64) -> MinimizedFailure {
    MinimizedFailure {
        seed,
        original_status: GeneratedProbeStatus::UnsupportedParse,
        outcome,
        original_source_sha256: "00".to_owned(),
        original_bytes: 2,
        original_ast_node_count: 1,
        original_error_type: "MontySyntaxError".to_owned(),
        original_error_message: "bad".to_owned(),
        minimized_source: hash.map(|_| "x".to_owned()),
        minimized_source_sha256: hash.map(str::to_owned),
        minimized_bytes: hash.map(|_| 1),
        minimized_ast_nodes: Vec::new(),
        minimized_ast_node_count: hash.map(|_| 1),
        checker_calls: checks,
        error_type: None,
        error_message: None,
    }
}

#[test]
fn minimization_report_counts_outcomes_hashes_and_checks() {
    let report = build_minimization_report(
        MinimizationConfig::default(),
        None,
        3,
        vec![
            failure(1, MinimizationOutcome::Minimized, Some("aa"), u64::MAX),
            failure(2, MinimizationOutcome::Minimized, Some("aa"), 5),
            failure(3, MinimizationOutcome::Unchanged, None, 1),
        ],
    );
    assert_eq!(report.attempted, 3);
    assert_eq!(report.unique_minimized_cases, 1);
    assert_eq!(report.total_checker_calls, u64::MAX);
    assert_eq!(report.summary.get("minimized"), Some(&2));
    assert_eq!(report.summary.get("unchanged"), Some(&1));
    assert_eq!(report.summary.get("error"), Some(&0));
}
