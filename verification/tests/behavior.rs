use monty_compat::behavior::{
    baseline_result, build_behavioral_report, invalid_probe_result, report_fits, ProbeResult,
};
use monty_compat::discovery::{MontyResponse, ProbeSpec, ProbeStatus, WorkerFailure};
use monty_compat::wire::{
    canonical_number, decode_wire_json, json_equal, wire_strict_equal, JsonNumber, JsonValue,
    BIGINT_WIRE_KEY, NONFINITE_WIRE_KEY,
};

fn text(value: &str) -> JsonValue {
    JsonValue::String(value.to_owned())
}

fn object(members: Vec<(&str, JsonValue)>) -> JsonValue {
    JsonValue::Object(members.into_iter().map(|(key, value)| (key.to_owned(), value)).collect())
}

fn spec(id: &str) -> ProbeSpec {
    ProbeSpec {
        id: id.to_owned(),
        category: "expressions".to_owned(),
        source: "1 + 1".to_owned(),
        description: "addition".to_owned(),
    }
}

fn nodes(names: &[&str]) -> Vec<String> {
    names.iter().map(|name| (*name).to_owned()).collect()
}

#[test]
fn bigint_markers_decode_to_numbers_everywhere() {
    let wire = JsonValue::Array(vec![
        object(vec![(BIGINT_WIRE_KEY, text("123"))]),
        object(vec![("inner", object(vec![(BIGINT_WIRE_KEY, text("-7"))]))]),
        object(vec![(BIGINT_WIRE_KEY, text("123")), ("other", JsonValue::Null)]),
    ]);
    let decoded = decode_wire_json(&wire);
    let expected = JsonValue::Array(vec![
        JsonValue::Number(JsonNumber::PosInt(123)),
        object(vec![("inner", JsonValue::Number(JsonNumber::NegInt(-7)))]),
        object(vec![(BIGINT_WIRE_KEY, text("123")), ("other", JsonValue::Null)]),
    ]);
    assert!(json_equal(&decoded, &expected));
    assert!(!json_equal(&decoded, &wire));
}

#[test]
fn a_marker_that_is_not_a_number_stays_an_object() {
    let wire = object(vec![(BIGINT_WIRE_KEY, text("twelve"))]);
    let decoded = decode_wire_json(&wire);
    assert!(json_equal(&decoded, &wire));
}

#[test]
fn strict_equality_refuses_nan_even_against_itself() {
    let nan = object(vec![(NONFINITE_WIRE_KEY, text("nan"))]);
    assert!(json_equal(&nan, &nan));
    assert!(!wire_strict_equal(&nan, &nan));
    let inf = object(vec![(NONFINITE_WIRE_KEY, text("inf"))]);
    assert!(wire_strict_equal(&inf, &inf));
    let nested = JsonValue::Array(vec![JsonValue::Bool(true), nan]);
    assert!(!wire_strict_equal(&nested, &nested));
}

#[test]
fn strict_equality_is_type_sensitive() {
    let one = JsonValue::Number(JsonNumber::PosInt(1));
    let truth = JsonValue::Bool(true);
    assert!(!wire_strict_equal(&one, &truth));
    let short = JsonValue::Array(vec![JsonValue::Null]);
    let long = JsonValue::Array(vec![JsonValue::Null, JsonValue::Null]);
    assert!(!wire_strict_equal(&short, &long));
    assert!(wire_strict_equal(&long, &JsonValue::Array(vec![JsonValue::Null, JsonValue::Null])));
}

#[test]
fn negative_zero_is_held_as_zero() {
    let negative_zero = JsonNumber::Float((-0.0f64).to_bits());
    assert_eq!(canonical_number(negative_zero), JsonNumber::Float(0.0f64.to_bits()));
    let one = JsonNumber::Float(1.5f64.to_bits());
    assert_eq!(canonical_number(one), one);
}

#[test]
fn returned_values_are_judged_strictly() {
    let same = baseline_result(
        spec("arith.add"),
        nodes(&["BinOp"]),
        JsonValue::Number(JsonNumber::PosInt(2)),
        Ok(MontyResponse::Return {
            value: JsonValue::Number(JsonNumber::PosInt(2)),
            is_none: false,
            repr: "2".to_owned(),
        }),
    );
    assert_eq!(same.status, ProbeStatus::Supported);
    assert_eq!(same.id, "arith.add");
    assert_eq!(same.error_type, None);

    let big = baseline_result(
        spec("arith.big"),
        nodes(&[]),
        JsonValue::Number(JsonNumber::PosInt(5)),
        Ok(MontyResponse::Return {
            value: object(vec![(BIGINT_WIRE_KEY, text("5"))]),
            is_none: false,
            repr: "5".to_owned(),
        }),
    );
    assert_eq!(big.status, ProbeStatus::Supported);

    let different = baseline_result(
        spec("arith.bool"),
        nodes(&[]),
        JsonValue::Number(JsonNumber::PosInt(1)),
        Ok(MontyResponse::Return { value: JsonValue::Bool(true), is_none: false, repr: "True".to_owned() }),
    );
    assert_eq!(different.status, ProbeStatus::SemanticMismatch);
    assert!(matches!(different.actual, JsonValue::Bool(true)));
}

#[test]
fn catalog_probe_errors_are_named_by_stage() {
    let parse = baseline_result(
        spec("syntax.match"),
        nodes(&["Match"]),
        JsonValue::Null,
        Ok(MontyResponse::CompileError {
            error_type: "SyntaxError".to_owned(),
            error_message: "bad".to_owned(),
        }),
    );
    assert_eq!(parse.status, ProbeStatus::UnsupportedParse);
    assert_eq!(parse.error_type.as_deref(), Some("MontySyntaxError"));
    assert_eq!(parse.error_message.as_deref(), Some("bad"));

    let runtime = baseline_result(
        spec("runtime.div"),
        nodes(&[]),
        JsonValue::Null,
        Ok(MontyResponse::RuntimeError {
            error_type: "ZeroDivisionError".to_owned(),
            error_message: "division by zero".to_owned(),
        }),
    );
    assert_eq!(runtime.status, ProbeStatus::UnsupportedRuntime);
    assert_eq!(runtime.error_type.as_deref(), Some("MontyRuntimeError"));
    assert_eq!(runtime.error_message.as_deref(), Some("ZeroDivisionError: division by zero"));

    let slow = baseline_result(
        spec("loop.forever"),
        nodes(&[]),
        JsonValue::Null,
        Err(WorkerFailure { timed_out: true, message: "timed out".to_owned() }),
    );
    assert_eq!(slow.status, ProbeStatus::Timeout);
    assert_eq!(slow.error_type.as_deref(), Some("MontyWorkerError"));

    let crashed = baseline_result(
        spec("loop.crash"),
        nodes(&[]),
        JsonValue::Null,
        Err(WorkerFailure { timed_out: false, message: "closed".to_owned() }),
    );
    assert_eq!(crashed.status, ProbeStatus::Crash);
    assert_eq!(crashed.error_message.as_deref(), Some("closed"));
}

#[test]
fn probes_cpython_rejects_are_invalid() {
    let result = invalid_probe_result(
        spec("bad.probe"),
        nodes(&["Name"]),
        "NameError".to_owned(),
        "name 'x' is not defined".to_owned(),
    );
    assert_eq!(result.status, ProbeStatus::InvalidProbe);
    assert!(matches!(result.expected, JsonValue::Null));
    assert_eq!(result.error_type.as_deref(), Some("NameError"));
}

fn with_status(id: &str, status: ProbeStatus, ast: &[&str]) -> ProbeResult {
    ProbeResult {
        id: id.to_owned(),
        category: "expressions".to_owned(),
        description: String::new(),
        status,
        ast_nodes: nodes(ast),
        expected: JsonValue::Null,
        actual: JsonValue::Null,
        error_type: None,
        error_message: None,
    }
}

#[test]
fn the_report_counts_every_status_and_node_and_files_results_by_id() {
    let results = vec![
        with_status("a", ProbeStatus::Supported, &["BinOp", "Constant"]),
        with_status("b", ProbeStatus::Crash, &["Constant"]),
        with_status("a", ProbeStatus::Timeout, &[]),
    ];
    assert!(report_fits(&results));
    let report = build_behavioral_report(results);
    assert_eq!(report.probe_schema_version, 3);
    assert_eq!(report.summary.len(), 9);
    assert_eq!(report.summary.get("supported"), Some(&1));
    assert_eq!(report.summary.get("crash"), Some(&1));
    assert_eq!(report.summary.get("timeout"), Some(&1));
    assert_eq!(report.summary.get("invalid_probe"), Some(&0));
    assert_eq!(report.ast_node_coverage.get("Constant"), Some(&2));
    assert_eq!(report.ast_node_coverage.get("BinOp"), Some(&1));
    assert_eq!(report.ast_node_coverage.len(), 2);
    assert_eq!(report.features.len(), 2);
    assert_eq!(report.features.get("a").map(|result| result.status), Some(ProbeStatus::Timeout));
}
