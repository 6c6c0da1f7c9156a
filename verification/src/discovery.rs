//! Behavioral discovery: probe and outcome statuses, generated-probe
//! configuration, the classification of Monty outcomes, and the decisions of a
//! generated discovery run.
//!
//! The workers themselves (a CPython process and a Monty process) are driven by
//! the application; every decision about what their answers mean is made here.

use vstd::prelude::*;
use vstd::string::StringSliceAdditionalSpecFns;

use crate::lines::{find_from, first_match_from};
use crate::ordered::TextMap;
use crate::wire::JsonValue;
use crate::text::{concat_str, debug_quoted, debug_text, str_eq, text_is_empty, text_option, utf8};

verus! {

pub const GENERATED_SCHEMA_VERSION: u64 = 1;

pub const MINIMIZATION_SCHEMA_VERSION: u64 = 1;

pub const PROMOTION_SCHEMA_VERSION: u64 = 1;

pub const PROBE_SCHEMA_VERSION: u64 = 3;

/// The most seeds one generated run may cover.
pub const MAX_GENERATED_SEEDS: u64 = 100000;

/// One atomic probe of the CPython catalog.
#[derive(Debug, Clone, PartialEq, Eq)]
pub struct ProbeSpec {
    pub id: String,
    pub category: String,
    pub source: String,
    pub description: String,
}

/// How Monty handled one catalog probe.
#[derive(Debug, Clone, Copy, PartialEq, Eq, PartialOrd, Ord, Structural)]
pub enum ProbeStatus {
    Supported,
    UnsupportedParse,
    UnsupportedTypeCheck,
    UnsupportedRuntime,
    SemanticMismatch,
    Crash,
    Timeout,
    InvalidProbe,
    UnknownError,
}

impl ProbeStatus {
    /// The stable report name of the status.
    pub open spec fn name(self) -> Seq<char> {
        match self {
            ProbeStatus::Supported => "supported"@,
            ProbeStatus::UnsupportedParse => "unsupported_parse"@,
            ProbeStatus::UnsupportedTypeCheck => "unsupported_type_check"@,
            ProbeStatus::UnsupportedRuntime => "unsupported_runtime"@,
            ProbeStatus::SemanticMismatch => "semantic_mismatch"@,
            ProbeStatus::Crash => "crash"@,
            ProbeStatus::Timeout => "timeout"@,
            ProbeStatus::InvalidProbe => "invalid_probe"@,
            ProbeStatus::UnknownError => "unknown_error"@,
        }
    }

    /// Every status, in report order.
    pub open spec fn every() -> Seq<ProbeStatus> {
        seq![
            ProbeStatus::Supported,
            ProbeStatus::UnsupportedParse,
            ProbeStatus::UnsupportedTypeCheck,
            ProbeStatus::UnsupportedRuntime,
            ProbeStatus::SemanticMismatch,
            ProbeStatus::Crash,
            ProbeStatus::Timeout,
            ProbeStatus::InvalidProbe,
            ProbeStatus::UnknownError,
        ]
    }

    pub fn all() -> (statuses: Vec<ProbeStatus>)
        ensures
            statuses@ == Self::every(),
    {
        let statuses = vec![
            ProbeStatus::Supported,
            ProbeStatus::UnsupportedParse,
            ProbeStatus::UnsupportedTypeCheck,
            ProbeStatus::UnsupportedRuntime,
            ProbeStatus::SemanticMismatch,
            ProbeStatus::Crash,
            ProbeStatus::Timeout,
            ProbeStatus::InvalidProbe,
            ProbeStatus::UnknownError,
        ];
        assert(statuses@ =~= Self::every());
        statuses
    }

    pub fn as_str(self) -> (name: &'static str)
        ensures
            name@ == self.name(),
    {
        match self {
            ProbeStatus::Supported => "supported",
            ProbeStatus::UnsupportedParse => "unsupported_parse",
            ProbeStatus::UnsupportedTypeCheck => "unsupported_type_check",
            ProbeStatus::UnsupportedRuntime => "unsupported_runtime",
            ProbeStatus::SemanticMismatch => "semantic_mismatch",
            ProbeStatus::Crash => "crash",
            ProbeStatus::Timeout => "timeout",
            ProbeStatus::InvalidProbe => "invalid_probe",
            ProbeStatus::UnknownError => "unknown_error",
        }
    }
}

/// Bounds of a generated-probe run.
#[derive(Debug, Clone, PartialEq, Eq)]
pub struct GeneratedProbeConfig {
    pub seed_start: u64,
    pub seed_count: u64,
    pub node_limit: usize,
    pub depth_limit: usize,
    pub max_source_bytes: usize,
    pub max_ast_nodes: usize,
}

impl Default for GeneratedProbeConfig {
    fn default() -> (config: Self)
        ensures
            config == (GeneratedProbeConfig {
                seed_start: 0,
                seed_count: 100,
                node_limit: 100,
                depth_limit: 5,
                max_source_bytes: 100000,
                max_ast_nodes: 2000,
            }),
    {
        GeneratedProbeConfig {
            seed_start: 0,
            seed_count: 100,
            node_limit: 100,
            depth_limit: 5,
            max_source_bytes: 100000,
            max_ast_nodes: 2000,
        }
    }
}

/// A failure reported by a worker process rather than by the code it ran.
#[derive(Debug, Clone, PartialEq, Eq)]
pub struct WorkerFailure {
    /// The worker did not answer within its time limit.
    pub timed_out: bool,
    /// The failure as the worker layer describes it.
    pub message: String,
}

/// Why a discovery run could not proceed.
#[derive(Debug, Clone, PartialEq, Eq)]
pub enum DiscoverError {
    InvalidConfig(String),
    Worker(WorkerFailure),
}

/// The first limit a generated-probe configuration breaks, as the message that reports it.
pub open spec fn config_problem(config: GeneratedProbeConfig) -> Option<Seq<char>> {
    if config.node_limit == 0 {
        Some("node_limit must be positive"@)
    } else if config.depth_limit == 0 {
        Some("depth_limit must be positive"@)
    } else if config.max_source_bytes == 0 {
        Some("max_source_bytes must be positive"@)
    } else if config.max_ast_nodes == 0 {
        Some("max_ast_nodes must be positive"@)
    } else if config.seed_count > MAX_GENERATED_SEEDS {
        Some("seed_count exceeds the 100000-seed limit"@)
    } else if config.seed_start + config.seed_count > u64::MAX {
        Some("seed range overflows u64"@)
    } else {
        None
    }
}

impl GeneratedProbeConfig {
    /// Accept only positive limits and a seed range that fits in `u64`.
    pub fn validate(&self) -> (result: Result<(), DiscoverError>)
        ensures
            result is Ok <==> config_problem(*self) is None,
            result matches Err(error) ==> (error matches DiscoverError::InvalidConfig(message)
                && config_problem(*self) == Some(message@)),
    {
        if self.node_limit == 0 {
            return Err(DiscoverError::InvalidConfig("node_limit must be positive".to_owned()));
        }
        if self.depth_limit == 0 {
            return Err(DiscoverError::InvalidConfig("depth_limit must be positive".to_owned()));
        }
        if self.max_source_bytes == 0 {
            return Err(
                DiscoverError::InvalidConfig("max_source_bytes must be positive".to_owned()),
            );
        }
        if self.max_ast_nodes == 0 {
            return Err(DiscoverError::InvalidConfig("max_ast_nodes must be positive".to_owned()));
        }
        if self.seed_count > MAX_GENERATED_SEEDS {
            return Err(
                DiscoverError::InvalidConfig(
                    "seed_count exceeds the 100000-seed limit".to_owned(),
                ),
            );
        }
        match self.seed_start.checked_add(self.seed_count) {
            Some(_) => Ok(()),
            None => Err(DiscoverError::InvalidConfig("seed range overflows u64".to_owned())),
        }
    }
}

/// How Monty handled one generated program.
#[derive(Debug, Clone, Copy, PartialEq, Eq, PartialOrd, Ord, Structural)]
pub enum GeneratedProbeStatus {
    Completed,
    UnsupportedParse,
    UnsupportedTypeCheck,
    UnsupportedRuntime,
    SemanticMismatch,
    Crash,
    Timeout,
    GenerationError,
    GuardRejected,
    UnknownError,
}

impl GeneratedProbeStatus {
    /// The stable report name of the status.
    pub open spec fn name(self) -> Seq<char> {
        match self {
            GeneratedProbeStatus::Completed => "completed"@,
            GeneratedProbeStatus::UnsupportedParse => "unsupported_parse"@,
            GeneratedProbeStatus::UnsupportedTypeCheck => "unsupported_type_check"@,
            GeneratedProbeStatus::UnsupportedRuntime => "unsupported_runtime"@,
            GeneratedProbeStatus::SemanticMismatch => "semantic_mismatch"@,
            GeneratedProbeStatus::Crash => "crash"@,
            GeneratedProbeStatus::Timeout => "timeout"@,
            GeneratedProbeStatus::GenerationError => "generation_error"@,
            GeneratedProbeStatus::GuardRejected => "guard_rejected"@,
            GeneratedProbeStatus::UnknownError => "unknown_error"@,
        }
    }

    /// Every status, in report order.
    pub open spec fn every() -> Seq<GeneratedProbeStatus> {
        seq![
            GeneratedProbeStatus::Completed,
            GeneratedProbeStatus::UnsupportedParse,
            GeneratedProbeStatus::UnsupportedTypeCheck,
            GeneratedProbeStatus::UnsupportedRuntime,
            GeneratedProbeStatus::SemanticMismatch,
            GeneratedProbeStatus::Crash,
            GeneratedProbeStatus::Timeout,
            GeneratedProbeStatus::GenerationError,
            GeneratedProbeStatus::GuardRejected,
            GeneratedProbeStatus::UnknownError,
        ]
    }

    pub fn all() -> (statuses: Vec<GeneratedProbeStatus>)
        ensures
            statuses@ == Self::every(),
    {
        let statuses = vec![
            GeneratedProbeStatus::Completed,
            GeneratedProbeStatus::UnsupportedParse,
            GeneratedProbeStatus::UnsupportedTypeCheck,
            GeneratedProbeStatus::UnsupportedRuntime,
            GeneratedProbeStatus::SemanticMismatch,
            GeneratedProbeStatus::Crash,
            GeneratedProbeStatus::Timeout,
            GeneratedProbeStatus::GenerationError,
            GeneratedProbeStatus::GuardRejected,
            GeneratedProbeStatus::UnknownError,
        ];
        assert(statuses@ =~= Self::every());
        statuses
    }

    pub fn as_str(self) -> (name: &'static str)
        ensures
            name@ == self.name(),
    {
        match self {
            GeneratedProbeStatus::Completed => "completed",
            GeneratedProbeStatus::UnsupportedParse => "unsupported_parse",
            GeneratedProbeStatus::UnsupportedTypeCheck => "unsupported_type_check",
            GeneratedProbeStatus::UnsupportedRuntime => "unsupported_runtime",
            GeneratedProbeStatus::SemanticMismatch => "semantic_mismatch",
            GeneratedProbeStatus::Crash => "crash",
            GeneratedProbeStatus::Timeout => "timeout",
            GeneratedProbeStatus::GenerationError => "generation_error",
            GeneratedProbeStatus::GuardRejected => "guard_rejected",
            GeneratedProbeStatus::UnknownError => "unknown_error",
        }
    }
}

/// Whether a minimizer run may be attempted, and how hard it may try.
#[derive(Debug, Clone, PartialEq, Eq)]
pub struct MinimizationConfig {
    pub enabled: bool,
    pub max_checks: u64,
}

impl Default for MinimizationConfig {
    fn default() -> (config: Self)
        ensures
            config == (MinimizationConfig { enabled: true, max_checks: 1000 }),
    {
        MinimizationConfig { enabled: true, max_checks: 1000 }
    }
}

impl MinimizationConfig {
    /// An enabled minimizer needs a positive check budget.
    pub fn validate(&self) -> (result: Result<(), DiscoverError>)
        ensures
            result is Ok <==> !(self.enabled && self.max_checks == 0),
            result matches Err(error) ==> (error matches DiscoverError::InvalidConfig(message)
                && message@ == "minimizer max_checks must be positive when enabled"@),
    {
        if self.enabled && self.max_checks == 0 {
            return Err(
                DiscoverError::InvalidConfig(
                    "minimizer max_checks must be positive when enabled".to_owned(),
                ),
            );
        }
        Ok(())
    }

    /// A configuration that never minimizes.
    pub fn disabled() -> (config: Self)
        ensures
            config == (MinimizationConfig { enabled: false, max_checks: 0 }),
    {
        MinimizationConfig { enabled: false, max_checks: 0 }
    }
}

/// What became of one minimization attempt.
#[derive(Debug, Clone, Copy, PartialEq, Eq, Structural)]
pub enum MinimizationOutcome {
    Minimized,
    Unchanged,
    Error,
}

impl MinimizationOutcome {
    /// The stable report name of the outcome.
    pub open spec fn name(self) -> Seq<char> {
        match self {
            MinimizationOutcome::Minimized => "minimized"@,
            MinimizationOutcome::Unchanged => "unchanged"@,
            MinimizationOutcome::Error => "error"@,
        }
    }

    /// Every outcome, in report order.
    pub open spec fn every() -> Seq<MinimizationOutcome> {
        seq![
            MinimizationOutcome::Minimized,
            MinimizationOutcome::Unchanged,
            MinimizationOutcome::Error,
        ]
    }

    pub fn all() -> (outcomes: Vec<MinimizationOutcome>)
        ensures
            outcomes@ == Self::every(),
    {
        let outcomes = vec![
            MinimizationOutcome::Minimized,
            MinimizationOutcome::Unchanged,
            MinimizationOutcome::Error,
        ];
        assert(outcomes@ =~= Self::every());
        outcomes
    }

    pub fn as_str(self) -> (name: &'static str)
        ensures
            name@ == self.name(),
    {
        match self {
            MinimizationOutcome::Minimized => "minimized",
            MinimizationOutcome::Unchanged => "unchanged",
            MinimizationOutcome::Error => "error",
        }
    }
}

/// `bytes` with ASCII capitals turned into small letters.
pub open spec fn lowercase_ascii(bytes: Seq<u8>) -> Seq<u8> {
    bytes.map_values(|b: u8| if 0x41 <= b <= 0x5a { (b + 0x20) as u8 } else { b })
}

/// Whether `needle` occurs somewhere in `haystack`.
pub open spec fn contains_bytes(haystack: Seq<u8>, needle: Seq<u8>) -> bool {
    first_match_from(haystack, 0, needle) is Some
}

/// Monty reports a syntax form its parser lacks.
pub open spec fn reports_parse_gap(error_type: Seq<char>, error_message: Seq<char>) -> bool {
    error_type == "SyntaxError"@ || contains_bytes(
        lowercase_ascii(utf8(error_message)),
        utf8("syntax parser does not yet support"@),
    )
}

/// Monty reports a module it cannot import.
pub open spec fn reports_missing_import(error_type: Seq<char>) -> bool {
    error_type == "ImportError"@ || error_type == "ModuleNotFoundError"@
}

/// The catalog status of a Monty compile error.
pub open spec fn baseline_status_of(error_type: Seq<char>, error_message: Seq<char>) -> ProbeStatus {
    if reports_parse_gap(error_type, error_message) {
        ProbeStatus::UnsupportedParse
    } else if reports_missing_import(error_type) {
        ProbeStatus::UnsupportedRuntime
    } else {
        ProbeStatus::UnsupportedTypeCheck
    }
}

/// The generated-probe status of a Monty compile error.
pub open spec fn generated_status_of(
    error_type: Seq<char>,
    error_message: Seq<char>,
) -> GeneratedProbeStatus {
    if reports_parse_gap(error_type, error_message) {
        GeneratedProbeStatus::UnsupportedParse
    } else if reports_missing_import(error_type) {
        GeneratedProbeStatus::UnsupportedRuntime
    } else {
        GeneratedProbeStatus::UnsupportedTypeCheck
    }
}

/// ASCII lowercase of a byte string.
pub fn lowercase_ascii_bytes(bytes: &[u8]) -> (lower: Vec<u8>)
    ensures
        lower@ == lowercase_ascii(bytes@),
{
    let mut lower: Vec<u8> = Vec::new();
    let mut i: usize = 0;
    while i < bytes.len()
        invariant
            i <= bytes@.len(),
            lower@ == lowercase_ascii(bytes@.take(i as int)),
        decreases bytes@.len() - i,
    {
        let b = bytes[i];
        let mapped = if 0x41 <= b && b <= 0x5a {
            b + 0x20
        } else {
            b
        };
        lower.push(mapped);
        assert(bytes@.take(i + 1) =~= bytes@.take(i as int).push(b));
        assert(lower@ =~= lowercase_ascii(bytes@.take(i + 1)));
        i = i + 1;
    }
    assert(bytes@.take(bytes@.len() as int) =~= bytes@);
    lower
}

fn mentions_parse_gap(error_type: &str, error_message: &str) -> (gap: bool)
    ensures
        gap == reports_parse_gap(error_type@, error_message@),
{
    if str_eq(error_type, "SyntaxError") {
        return true;
    }
    let lower = lowercase_ascii_bytes(error_message.as_bytes());
    let needle = "syntax parser does not yet support";
    proof {
        reveal_strlit("syntax parser does not yet support");
        vstd::utf8::is_ascii_chars_encode_utf8(needle@);
    }
    find_from(lower.as_slice(), 0, needle.as_bytes()).is_some()
}

fn mentions_missing_import(error_type: &str) -> (missing: bool)
    ensures
        missing == reports_missing_import(error_type@),
{
    str_eq(error_type, "ImportError") || str_eq(error_type, "ModuleNotFoundError")
}

/// Classify a Monty compile error of a catalog probe.
pub fn baseline_compile_error_status(error_type: &str, error_message: &str) -> (status: ProbeStatus)
    ensures
        status == baseline_status_of(error_type@, error_message@),
{
    if mentions_parse_gap(error_type, error_message) {
        ProbeStatus::UnsupportedParse
    } else if mentions_missing_import(error_type) {
        ProbeStatus::UnsupportedRuntime
    } else {
        ProbeStatus::UnsupportedTypeCheck
    }
}

/// Classify a Monty compile error of a generated program.
pub fn compile_error_status(error_type: &str, error_message: &str) -> (status: GeneratedProbeStatus)
    ensures
        status == generated_status_of(error_type@, error_message@),
{
    if mentions_parse_gap(error_type, error_message) {
        GeneratedProbeStatus::UnsupportedParse
    } else if mentions_missing_import(error_type) {
        GeneratedProbeStatus::UnsupportedRuntime
    } else {
        GeneratedProbeStatus::UnsupportedTypeCheck
    }
}

/// The wrapper error type and message that stand for a Monty error in reports.
pub open spec fn normalized_error(
    status: ProbeStatus,
    error_type: Seq<char>,
    error_message: Seq<char>,
) -> (Seq<char>, Seq<char>) {
    if status == ProbeStatus::UnsupportedParse && error_type == "SyntaxError"@ {
        ("MontySyntaxError"@, error_message)
    } else if status == ProbeStatus::UnsupportedTypeCheck {
        ("MontyTypingError"@, error_message)
    } else if error_message.len() == 0 {
        ("MontyRuntimeError"@, error_type)
    } else {
        ("MontyRuntimeError"@, error_type + ": "@ + error_message)
    }
}

/// Name a Monty error by the stage that raised it.
pub fn normalize_monty_error(
    status: ProbeStatus,
    error_type: String,
    error_message: String,
) -> (normalized: (String, String))
    ensures
        (normalized.0@, normalized.1@) == normalized_error(status, error_type@, error_message@),
{
    if status == ProbeStatus::UnsupportedParse && str_eq(error_type.as_str(), "SyntaxError") {
        ("MontySyntaxError".to_owned(), error_message)
    } else if status == ProbeStatus::UnsupportedTypeCheck {
        ("MontyTypingError".to_owned(), error_message)
    } else if str_eq(error_message.as_str(), "") {
        proof {
            reveal_strlit("");
        }
        ("MontyRuntimeError".to_owned(), error_type)
    } else {
        proof {
            reveal_strlit("");
        }
        let head = concat_str(error_type.as_str(), ": ");
        assert(error_message@.len() != 0) by {
            if error_message@.len() == 0 {
                assert(error_message@ =~= ""@);
            }
        }
        ("MontyRuntimeError".to_owned(), concat_str(head.as_str(), error_message.as_str()))
    }
}

/// The catalog status that decides how a generated-probe error is named.
pub open spec fn naming_status(status: GeneratedProbeStatus) -> ProbeStatus {
    match status {
        GeneratedProbeStatus::UnsupportedParse => ProbeStatus::UnsupportedParse,
        GeneratedProbeStatus::UnsupportedTypeCheck => ProbeStatus::UnsupportedTypeCheck,
        _ => ProbeStatus::UnsupportedRuntime,
    }
}

/// Name a Monty error of a generated program by the stage that raised it.
pub fn normalize_generated_monty_error(
    status: GeneratedProbeStatus,
    error_type: String,
    error_message: String,
) -> (normalized: (String, String))
    ensures
        (normalized.0@, normalized.1@) == normalized_error(
            naming_status(status),
            error_type@,
            error_message@,
        ),
{
    let probe_status = match status {
        GeneratedProbeStatus::UnsupportedParse => ProbeStatus::UnsupportedParse,
        GeneratedProbeStatus::UnsupportedTypeCheck => ProbeStatus::UnsupportedTypeCheck,
        _ => ProbeStatus::UnsupportedRuntime,
    };
    normalize_monty_error(probe_status, error_type, error_message)
}

/// What became of one generated program.
#[derive(Debug, Clone, PartialEq, Eq)]
pub struct GeneratedProbeResult {
    pub seed: u64,
    pub status: GeneratedProbeStatus,
    pub fully_accepted: bool,
    pub ast_nodes: Vec<String>,
    pub ast_node_count: usize,
    pub source_sha256: Option<String>,
    pub source: Option<String>,
    pub error_type: Option<String>,
    pub error_message: Option<String>,
}

/// The tool that generated or minimized programs.
#[derive(Debug, Clone, PartialEq, Eq)]
pub struct GeneratorIdentity {
    pub distribution: &'static str,
    pub version: Option<String>,
}

/// How generated programs were kept from running.
#[derive(Debug, Clone, PartialEq, Eq)]
pub struct GeneratedSafety {
    pub mode: &'static str,
    pub raw_generated_code_executed: bool,
    pub description: &'static str,
}

/// One program that failed in Monty, and what the minimizer made of it.
#[derive(Debug, Clone, PartialEq, Eq)]
pub struct MinimizedFailure {
    pub seed: u64,
    pub original_status: GeneratedProbeStatus,
    pub outcome: MinimizationOutcome,
    pub original_source_sha256: String,
    pub original_bytes: usize,
    pub original_ast_node_count: usize,
    pub original_error_type: String,
    pub original_error_message: String,
    pub minimized_source: Option<String>,
    pub minimized_source_sha256: Option<String>,
    pub minimized_bytes: Option<usize>,
    pub minimized_ast_nodes: Vec<String>,
    pub minimized_ast_node_count: Option<usize>,
    pub checker_calls: u64,
    pub error_type: Option<String>,
    pub error_message: Option<String>,
}

/// How minimizer candidates were kept from running.
#[derive(Debug, Clone, PartialEq, Eq)]
pub struct MinimizationSafety {
    pub raw_generated_code_executed: bool,
    pub candidate_execution_mode: &'static str,
    pub predicate: &'static str,
}

/// The CPython interpreter a discovery run consulted.
#[derive(Debug, Clone, PartialEq, Eq)]
pub struct EnvironmentInfo {
    pub implementation: String,
    pub python_version: String,
    pub platform: String,
    pub generated_at: String,
}

/// The Python worker's answer to a request for one generated program.
#[derive(Debug, Clone, PartialEq, Eq)]
pub enum GenerateResponse {
    Prepared {
        seed: u64,
        source: String,
        source_sha256: String,
        inert_source: String,
        ast_nodes: Vec<String>,
        ast_node_count: usize,
    },
    GenerationError {
        seed: u64,
        source: Option<String>,
        source_sha256: Option<String>,
        error_type: String,
        error_message: String,
    },
    GuardRejected {
        seed: u64,
        source: Option<String>,
        source_sha256: Option<String>,
        error_type: String,
        error_message: String,
    },
}

/// A smaller program the minimizer asks to have checked.
#[derive(Debug, Clone, PartialEq, Eq)]
pub struct MinimizeCandidate {
    pub candidate_id: u64,
    pub inert_source: String,
}

/// The Python worker's final answer to a minimization request.
#[derive(Debug, Clone, PartialEq, Eq)]
pub enum MinimizeResponse {
    Minimized {
        source: String,
        source_sha256: String,
        ast_nodes: Vec<String>,
        ast_node_count: usize,
        checks: u64,
    },
    Unchanged { checks: u64 },
    MinimizationError { checks: u64, error_type: String, error_message: String },
}

/// What Monty did with one program, as the Monty worker reports it.
#[derive(Debug)]
pub enum MontyResponse {
    Return { value: JsonValue, is_none: bool, repr: String },
    CompileError { error_type: String, error_message: String },
    RuntimeError { error_type: String, error_message: String },
}

/// A generated program ready to be checked by Monty under a dead branch.
#[derive(Debug, Clone, PartialEq, Eq)]
pub struct PreparedGeneratedProbe {
    pub seed: u64,
    pub source: String,
    pub source_sha256: String,
    pub ast_nodes: Vec<String>,
    pub ast_node_count: usize,
}

/// What a generated-probe answer asks for next.
#[derive(Debug, Clone, PartialEq, Eq)]
pub enum GeneratedStep {
    /// Run the inert form of the program in Monty, then call `inert_outcome_result`.
    RunInert { inert_source: String, prepared: PreparedGeneratedProbe },
    /// Nothing is left to run.
    Finished(GeneratedProbeResult),
}

/// A result for a program that never reached Monty.
pub fn failed_generated_result(
    seed: u64,
    status: GeneratedProbeStatus,
    source: Option<String>,
    source_sha256: Option<String>,
    error_type: String,
    error_message: String,
) -> (result: GeneratedProbeResult)
    ensures
        result.seed == seed,
        result.status == status,
        !result.fully_accepted,
        result.ast_nodes@.len() == 0,
        result.ast_node_count == 0,
        text_option(result.source_sha256) == text_option(source_sha256),
        text_option(result.source) == text_option(source),
        text_option(result.error_type) == Some(error_type@),
        text_option(result.error_message) == Some(error_message@),
{
    GeneratedProbeResult {
        seed,
        status,
        fully_accepted: false,
        ast_nodes: Vec::new(),
        ast_node_count: 0,
        source_sha256,
        source,
        error_type: Some(error_type),
        error_message: Some(error_message),
    }
}

/// A result for a program that Monty refused, with the error named by its stage.
pub fn monty_failed_result(
    status: GeneratedProbeStatus,
    prepared: PreparedGeneratedProbe,
    error_type: String,
    error_message: String,
) -> (result: GeneratedProbeResult)
    ensures
        result.seed == prepared.seed,
        result.status == status,
        !result.fully_accepted,
        result.ast_nodes@ == prepared.ast_nodes@,
        result.ast_node_count == prepared.ast_node_count,
        text_option(result.source_sha256) == Some(prepared.source_sha256@),
        text_option(result.source) == Some(prepared.source@),
        (text_option(result.error_type), text_option(result.error_message)) == ({
            let named = normalized_error(naming_status(status), error_type@, error_message@);
            (Some(named.0), Some(named.1))
        }),
{
    let (error_type, error_message) = normalize_generated_monty_error(
        status,
        error_type,
        error_message,
    );
    GeneratedProbeResult {
        seed: prepared.seed,
        status,
        fully_accepted: false,
        ast_nodes: prepared.ast_nodes,
        ast_node_count: prepared.ast_node_count,
        source_sha256: Some(prepared.source_sha256),
        source: Some(prepared.source),
        error_type: Some(error_type),
        error_message: Some(error_message),
    }
}

/// The status Monty's handling of an inert program earns.
pub open spec fn inert_status(outcome: Result<MontyResponse, WorkerFailure>) -> GeneratedProbeStatus {
    match outcome {
        Ok(MontyResponse::Return { is_none, .. }) => if is_none {
            GeneratedProbeStatus::Completed
        } else {
            GeneratedProbeStatus::SemanticMismatch
        },
        Ok(MontyResponse::CompileError { error_type, error_message }) => generated_status_of(
            error_type@,
            error_message@,
        ),
        Ok(MontyResponse::RuntimeError { .. }) => GeneratedProbeStatus::UnsupportedRuntime,
        Err(failure) => if failure.timed_out {
            GeneratedProbeStatus::Timeout
        } else {
            GeneratedProbeStatus::Crash
        },
    }
}

/// The error type and message recorded for Monty's handling of an inert program.
pub open spec fn inert_error(outcome: Result<MontyResponse, WorkerFailure>) -> (
    Option<Seq<char>>,
    Option<Seq<char>>,
) {
    match outcome {
        Ok(MontyResponse::Return { is_none, repr, .. }) => if is_none {
            (None, None)
        } else {
            (None, Some("inert source returned "@ + repr@))
        },
        Ok(MontyResponse::CompileError { error_type, error_message }) => {
            let named = normalized_error(
                naming_status(generated_status_of(error_type@, error_message@)),
                error_type@,
                error_message@,
            );
            (Some(named.0), Some(named.1))
        },
        Ok(MontyResponse::RuntimeError { error_type, error_message }) => {
            let named = normalized_error(ProbeStatus::UnsupportedRuntime, error_type@, error_message@);
            (Some(named.0), Some(named.1))
        },
        Err(failure) => (Some("MontyWorkerError"@), Some(failure.message@)),
    }
}

/// Record what Monty did with the inert form of a prepared program.
pub fn inert_outcome_result(
    outcome: Result<MontyResponse, WorkerFailure>,
    prepared: PreparedGeneratedProbe,
) -> (result: GeneratedProbeResult)
    ensures
        result.seed == prepared.seed,
        result.status == inert_status(outcome),
        result.fully_accepted <==> outcome matches Ok(MontyResponse::Return { .. }),
        result.ast_nodes@ == prepared.ast_nodes@,
        result.ast_node_count == prepared.ast_node_count,
        text_option(result.source_sha256) == Some(prepared.source_sha256@),
        text_option(result.source) == Some(prepared.source@),
        (text_option(result.error_type), text_option(result.error_message)) == inert_error(outcome),
{
    match outcome {
        Ok(MontyResponse::Return { is_none, repr, .. }) => {
            let (status, message) = if is_none {
                (GeneratedProbeStatus::Completed, None)
            } else {
                (
                    GeneratedProbeStatus::SemanticMismatch,
                    Some(concat_str("inert source returned ", repr.as_str())),
                )
            };
            GeneratedProbeResult {
                seed: prepared.seed,
                status,
                fully_accepted: true,
                ast_nodes: prepared.ast_nodes,
                ast_node_count: prepared.ast_node_count,
                source_sha256: Some(prepared.source_sha256),
                source: Some(prepared.source),
                error_type: None,
                error_message: message,
            }
        },
        Ok(MontyResponse::CompileError { error_type, error_message }) => {
            let status = compile_error_status(error_type.as_str(), error_message.as_str());
            monty_failed_result(status, prepared, error_type, error_message)
        },
        Ok(MontyResponse::RuntimeError { error_type, error_message }) => {
            monty_failed_result(
                GeneratedProbeStatus::UnsupportedRuntime,
                prepared,
                error_type,
                error_message,
            )
        },
        Err(failure) => {
            let status = if failure.timed_out {
                GeneratedProbeStatus::Timeout
            } else {
                GeneratedProbeStatus::Crash
            };
            GeneratedProbeResult {
                seed: prepared.seed,
                status,
                fully_accepted: false,
                ast_nodes: prepared.ast_nodes,
                ast_node_count: prepared.ast_node_count,
                source_sha256: Some(prepared.source_sha256),
                source: Some(prepared.source),
                error_type: Some("MontyWorkerError".to_owned()),
                error_message: Some(failure.message),
            }
        },
    }
}

/// Decide what a generated-probe answer needs: a Monty run, or nothing more.
pub fn prepare_generated(response: GenerateResponse) -> (step: GeneratedStep)
    ensures
        match response {
            GenerateResponse::Prepared { seed, source, source_sha256, inert_source, ast_nodes, ast_node_count } =>
                step matches GeneratedStep::RunInert { inert_source: run, prepared }
                && run@ == inert_source@ && prepared.seed == seed && prepared.source@ == source@
                && prepared.source_sha256@ == source_sha256@ && prepared.ast_nodes@ == ast_nodes@
                && prepared.ast_node_count == ast_node_count,
            GenerateResponse::GenerationError { seed, source, source_sha256, error_type, error_message } =>
                step matches GeneratedStep::Finished(result)
                && result.seed == seed && result.status == GeneratedProbeStatus::GenerationError
                && !result.fully_accepted && result.ast_nodes@.len() == 0 && result.ast_node_count == 0
                && text_option(result.source) == text_option(source)
                && text_option(result.source_sha256) == text_option(source_sha256)
                && text_option(result.error_type) == Some(error_type@)
                && text_option(result.error_message) == Some(error_message@),
            GenerateResponse::GuardRejected { seed, source, source_sha256, error_type, error_message } =>
                step matches GeneratedStep::Finished(result)
                && result.seed == seed && result.status == GeneratedProbeStatus::GuardRejected
                && !result.fully_accepted && result.ast_nodes@.len() == 0 && result.ast_node_count == 0
                && text_option(result.source) == text_option(source)
                && text_option(result.source_sha256) == text_option(source_sha256)
                && text_option(result.error_type) == Some(error_type@)
                && text_option(result.error_message) == Some(error_message@),
        },
{
    match response {
        GenerateResponse::Prepared {
            seed,
            source,
            source_sha256,
            inert_source,
            ast_nodes,
            ast_node_count,
        } => GeneratedStep::RunInert {
            inert_source,
            prepared: PreparedGeneratedProbe { seed, source, source_sha256, ast_nodes, ast_node_count },
        },
        GenerateResponse::GenerationError {
            seed,
            source,
            source_sha256,
            error_type,
            error_message,
        } => GeneratedStep::Finished(
            failed_generated_result(
                seed,
                GeneratedProbeStatus::GenerationError,
                source,
                source_sha256,
                error_type,
                error_message,
            ),
        ),
        GenerateResponse::GuardRejected {
            seed,
            source,
            source_sha256,
            error_type,
            error_message,
        } => GeneratedStep::Finished(
            failed_generated_result(
                seed,
                GeneratedProbeStatus::GuardRejected,
                source,
                source_sha256,
                error_type,
                error_message,
            ),
        ),
    }
}

/// A result for a seed whose generation request the worker layer could not answer.
pub fn generation_failure_result(seed: u64, failure: WorkerFailure) -> (result: GeneratedProbeResult)
    ensures
        result.seed == seed,
        result.status == (if failure.timed_out {
            GeneratedProbeStatus::Timeout
        } else {
            GeneratedProbeStatus::GenerationError
        }),
        !result.fully_accepted,
        result.ast_nodes@.len() == 0,
        result.ast_node_count == 0,
        result.source is None,
        result.source_sha256 is None,
        text_option(result.error_type) == Some("WorkerError"@),
        text_option(result.error_message) == Some(failure.message@),
{
    let status = if failure.timed_out {
        GeneratedProbeStatus::Timeout
    } else {
        GeneratedProbeStatus::GenerationError
    };
    GeneratedProbeResult {
        seed,
        status,
        fully_accepted: false,
        ast_nodes: Vec::new(),
        ast_node_count: 0,
        source_sha256: None,
        source: None,
        error_type: Some("WorkerError".to_owned()),
        error_message: Some(failure.message),
    }
}

/// A result that reports a failed worker: the run stops after it.
pub open spec fn stops_run(result: GeneratedProbeResult) -> bool {
    (result.status == GeneratedProbeStatus::Timeout || result.status
        == GeneratedProbeStatus::GenerationError) && text_option(result.error_type) == Some(
        "WorkerError"@,
    )
}

/// Whether the run ends after recording `result`.
pub fn ends_run(result: &GeneratedProbeResult) -> (stop: bool)
    ensures
        stop == stops_run(*result),
{
    let failed_status = result.status == GeneratedProbeStatus::Timeout || result.status
        == GeneratedProbeStatus::GenerationError;
    if !failed_status {
        return false;
    }
    match &result.error_type {
        Some(error_type) => str_eq(error_type.as_str(), "WorkerError"),
        None => false,
    }
}

/// What identifies a Monty failure across programs: its status and its named error.
#[derive(Debug, Clone, PartialEq, Eq)]
pub struct FailureFingerprint {
    pub status: GeneratedProbeStatus,
    pub error_type: String,
    pub error_message: String,
}

/// A fingerprint as plain values.
pub open spec fn fingerprint_view(fingerprint: FailureFingerprint) -> (
    GeneratedProbeStatus,
    Seq<char>,
    Seq<char>,
) {
    (fingerprint.status, fingerprint.error_type@, fingerprint.error_message@)
}

/// The statuses that mark a gap in Monty's supported subset.
pub open spec fn is_unsupported(status: GeneratedProbeStatus) -> bool {
    status == GeneratedProbeStatus::UnsupportedParse || status
        == GeneratedProbeStatus::UnsupportedTypeCheck || status
        == GeneratedProbeStatus::UnsupportedRuntime
}

/// The fingerprint of a recorded result, when it reports a gap with a named error.
pub open spec fn result_fingerprint(result: GeneratedProbeResult) -> Option<
    (GeneratedProbeStatus, Seq<char>, Seq<char>),
> {
    match (result.error_type, result.error_message) {
        (Some(error_type), Some(error_message)) => if is_unsupported(result.status) {
            Some((result.status, error_type@, error_message@))
        } else {
            None
        },
        _ => None,
    }
}

/// The fingerprint of a Monty answer, when it reports an error.
pub open spec fn response_fingerprint(response: MontyResponse) -> Option<
    (GeneratedProbeStatus, Seq<char>, Seq<char>),
> {
    match response {
        MontyResponse::CompileError { error_type, error_message } => {
            let status = generated_status_of(error_type@, error_message@);
            let named = normalized_error(naming_status(status), error_type@, error_message@);
            Some((status, named.0, named.1))
        },
        MontyResponse::RuntimeError { error_type, error_message } => {
            let named = normalized_error(ProbeStatus::UnsupportedRuntime, error_type@, error_message@);
            Some((GeneratedProbeStatus::UnsupportedRuntime, named.0, named.1))
        },
        MontyResponse::Return { .. } => None,
    }
}

/// The fingerprint of a recorded result.
pub fn generated_result_fingerprint(result: &GeneratedProbeResult) -> (fingerprint: Option<
    FailureFingerprint,
>)
    ensures
        match fingerprint {
            Some(f) => result_fingerprint(*result) == Some(fingerprint_view(f)),
            None => result_fingerprint(*result) is None,
        },
{
    let unsupported = result.status == GeneratedProbeStatus::UnsupportedParse || result.status
        == GeneratedProbeStatus::UnsupportedTypeCheck || result.status
        == GeneratedProbeStatus::UnsupportedRuntime;
    if !unsupported {
        return None;
    }
    match (&result.error_type, &result.error_message) {
        (Some(error_type), Some(error_message)) => Some(
            FailureFingerprint {
                status: result.status,
                error_type: error_type.clone(),
                error_message: error_message.clone(),
            },
        ),
        _ => None,
    }
}

/// The fingerprint of a Monty answer.
pub fn monty_response_fingerprint(response: MontyResponse) -> (fingerprint: Option<FailureFingerprint>)
    ensures
        match fingerprint {
            Some(f) => response_fingerprint(response) == Some(fingerprint_view(f)),
            None => response_fingerprint(response) is None,
        },
{
    match response {
        MontyResponse::CompileError { error_type, error_message } => {
            let status = compile_error_status(error_type.as_str(), error_message.as_str());
            let (error_type, error_message) = normalize_generated_monty_error(
                status,
                error_type,
                error_message,
            );
            Some(FailureFingerprint { status, error_type, error_message })
        },
        MontyResponse::RuntimeError { error_type, error_message } => {
            let (error_type, error_message) = normalize_generated_monty_error(
                GeneratedProbeStatus::UnsupportedRuntime,
                error_type,
                error_message,
            );
            Some(
                FailureFingerprint {
                    status: GeneratedProbeStatus::UnsupportedRuntime,
                    error_type,
                    error_message,
                },
            )
        },
        MontyResponse::Return { .. } => None,
    }
}

/// Whether a minimizer candidate fails in Monty exactly as the original program did.
pub fn candidate_preserves(fingerprint: &FailureFingerprint, response: MontyResponse) -> (preserves:
    bool)
    ensures
        preserves == (response_fingerprint(response) == Some(fingerprint_view(*fingerprint))),
{
    match monty_response_fingerprint(response) {
        Some(found) => found.status == fingerprint.status && str_eq(
            found.error_type.as_str(),
            fingerprint.error_type.as_str(),
        ) && str_eq(found.error_message.as_str(), fingerprint.error_message.as_str()),
        None => false,
    }
}

/// A recorded failure that the minimizer can work on.
#[derive(Debug, Clone, PartialEq, Eq)]
pub struct MinimizationSubject {
    pub fingerprint: FailureFingerprint,
    pub source: String,
    pub source_sha256: String,
}

/// The failure to minimize: a fingerprinted result that kept its source and hash.
pub fn minimization_subject(result: &GeneratedProbeResult) -> (subject: Option<MinimizationSubject>)
    ensures
        match subject {
            Some(s) => result_fingerprint(*result) == Some(fingerprint_view(s.fingerprint))
                && text_option(result.source) == Some(s.source@)
                && text_option(result.source_sha256) == Some(s.source_sha256@),
            None => result_fingerprint(*result) is None || result.source is None
                || result.source_sha256 is None,
        },
{
    let fingerprint = match generated_result_fingerprint(result) {
        Some(fingerprint) => fingerprint,
        None => return None,
    };
    match (&result.source, &result.source_sha256) {
        (Some(source), Some(source_sha256)) => Some(
            MinimizationSubject {
                fingerprint,
                source: source.clone(),
                source_sha256: source_sha256.clone(),
            },
        ),
        _ => None,
    }
}

/// The record of a minimization attempt on `subject`, which came from `result`.
pub fn minimized_failure(
    result: &GeneratedProbeResult,
    subject: MinimizationSubject,
    response: MinimizeResponse,
) -> (failure: MinimizedFailure)
    ensures
        failure.seed == result.seed,
        failure.original_status == result.status,
        failure.original_source_sha256@ == subject.source_sha256@,
        failure.original_bytes == utf8(subject.source@).len(),
        failure.original_ast_node_count == result.ast_node_count,
        failure.original_error_type@ == subject.fingerprint.error_type@,
        failure.original_error_message@ == subject.fingerprint.error_message@,
        match response {
            MinimizeResponse::Minimized { source, source_sha256, ast_nodes, ast_node_count, checks } =>
                failure.outcome == MinimizationOutcome::Minimized
                && text_option(failure.minimized_source) == Some(source@)
                && text_option(failure.minimized_source_sha256) == Some(source_sha256@)
                && (failure.minimized_bytes matches Some(n) && n == utf8(source@).len())
                && failure.minimized_ast_nodes@ == ast_nodes@
                && failure.minimized_ast_node_count == Some(ast_node_count)
                && failure.checker_calls == checks
                && failure.error_type is None && failure.error_message is None,
            MinimizeResponse::Unchanged { checks } =>
                failure.outcome == MinimizationOutcome::Unchanged
                && failure.minimized_source is None && failure.minimized_source_sha256 is None
                && failure.minimized_bytes is None && failure.minimized_ast_nodes@.len() == 0
                && failure.minimized_ast_node_count is None && failure.checker_calls == checks
                && failure.error_type is None && failure.error_message is None,
            MinimizeResponse::MinimizationError { checks, error_type, error_message } =>
                failure.outcome == MinimizationOutcome::Error
                && failure.minimized_source is None && failure.minimized_source_sha256 is None
                && failure.minimized_bytes is None && failure.minimized_ast_nodes@.len() == 0
                && failure.minimized_ast_node_count is None && failure.checker_calls == checks
                && text_option(failure.error_type) == Some(error_type@)
                && text_option(failure.error_message) == Some(error_message@),
        },
{
    let original_bytes = subject.source.as_str().as_bytes().len();
    let seed = result.seed;
    let original_status = result.status;
    let original_ast_node_count = result.ast_node_count;
    let MinimizationSubject { fingerprint, source_sha256, .. } = subject;
    match response {
        MinimizeResponse::Minimized { source, source_sha256: minimized_sha256, ast_nodes, ast_node_count, checks } => {
            let minimized_bytes = source.as_str().as_bytes().len();
            MinimizedFailure {
                seed,
                original_status,
                outcome: MinimizationOutcome::Minimized,
                original_source_sha256: source_sha256,
                original_bytes,
                original_ast_node_count,
                original_error_type: fingerprint.error_type,
                original_error_message: fingerprint.error_message,
                minimized_source: Some(source),
                minimized_source_sha256: Some(minimized_sha256),
                minimized_bytes: Some(minimized_bytes),
                minimized_ast_nodes: ast_nodes,
                minimized_ast_node_count: Some(ast_node_count),
                checker_calls: checks,
                error_type: None,
                error_message: None,
            }
        },
        MinimizeResponse::Unchanged { checks } => MinimizedFailure {
            seed,
            original_status,
            outcome: MinimizationOutcome::Unchanged,
            original_source_sha256: source_sha256,
            original_bytes,
            original_ast_node_count,
            original_error_type: fingerprint.error_type,
            original_error_message: fingerprint.error_message,
            minimized_source: None,
            minimized_source_sha256: None,
            minimized_bytes: None,
            minimized_ast_nodes: Vec::new(),
            minimized_ast_node_count: None,
            checker_calls: checks,
            error_type: None,
            error_message: None,
        },
        MinimizeResponse::MinimizationError { checks, error_type, error_message } => MinimizedFailure {
            seed,
            original_status,
            outcome: MinimizationOutcome::Error,
            original_source_sha256: source_sha256,
            original_bytes,
            original_ast_node_count,
            original_error_type: fingerprint.error_type,
            original_error_message: fingerprint.error_message,
            minimized_source: None,
            minimized_source_sha256: None,
            minimized_bytes: None,
            minimized_ast_nodes: Vec::new(),
            minimized_ast_node_count: None,
            checker_calls: checks,
            error_type: Some(error_type),
            error_message: Some(error_message),
        },
    }
}

/// Different statuses have different report names.
pub proof fn lemma_generated_names_distinct(a: GeneratedProbeStatus, b: GeneratedProbeStatus)
    ensures
        a != b ==> a.name() != b.name(),
{
    reveal_strlit("completed");
    reveal_strlit("unsupported_parse");
    reveal_strlit("unsupported_type_check");
    reveal_strlit("unsupported_runtime");
    reveal_strlit("semantic_mismatch");
    reveal_strlit("crash");
    reveal_strlit("timeout");
    reveal_strlit("generation_error");
    reveal_strlit("guard_rejected");
    reveal_strlit("unknown_error");
    if a != b && a.name() == b.name() {
        assert(a.name().len() == b.name().len());
        assert(a.name()[0] == b.name()[0]);
        assert(a.name()[12] == b.name()[12]);
    }
}

/// The position of a status in report order.
pub open spec fn status_position(status: GeneratedProbeStatus) -> int {
    match status {
        GeneratedProbeStatus::Completed => 0,
        GeneratedProbeStatus::UnsupportedParse => 1,
        GeneratedProbeStatus::UnsupportedTypeCheck => 2,
        GeneratedProbeStatus::UnsupportedRuntime => 3,
        GeneratedProbeStatus::SemanticMismatch => 4,
        GeneratedProbeStatus::Crash => 5,
        GeneratedProbeStatus::Timeout => 6,
        GeneratedProbeStatus::GenerationError => 7,
        GeneratedProbeStatus::GuardRejected => 8,
        GeneratedProbeStatus::UnknownError => 9,
    }
}

pub fn position_of(status: GeneratedProbeStatus) -> (position: usize)
    ensures
        position == status_position(status),
        position < 10,
        GeneratedProbeStatus::every()[position as int] == status,
{
    match status {
        GeneratedProbeStatus::Completed => 0,
        GeneratedProbeStatus::UnsupportedParse => 1,
        GeneratedProbeStatus::UnsupportedTypeCheck => 2,
        GeneratedProbeStatus::UnsupportedRuntime => 3,
        GeneratedProbeStatus::SemanticMismatch => 4,
        GeneratedProbeStatus::Crash => 5,
        GeneratedProbeStatus::Timeout => 6,
        GeneratedProbeStatus::GenerationError => 7,
        GeneratedProbeStatus::GuardRejected => 8,
        GeneratedProbeStatus::UnknownError => 9,
    }
}

/// How many of `results` have `status`.
pub open spec fn status_count(results: Seq<GeneratedProbeResult>, status: GeneratedProbeStatus) -> nat
    decreases results.len(),
{
    if results.len() == 0 {
        0
    } else {
        status_count(results.drop_last(), status) + if results.last().status == status {
            1nat
        } else {
            0nat
        }
    }
}

/// How many of `results` Monty fully accepted.
pub open spec fn accepted_count(results: Seq<GeneratedProbeResult>) -> nat
    decreases results.len(),
{
    if results.len() == 0 {
        0
    } else {
        accepted_count(results.drop_last()) + if results.last().fully_accepted {
            1nat
        } else {
            0nat
        }
    }
}

/// The counts of all ten statuses added up.
pub open spec fn status_total(results: Seq<GeneratedProbeResult>) -> nat {
    status_count(results, GeneratedProbeStatus::Completed) + status_count(results, GeneratedProbeStatus::UnsupportedParse)
        + status_count(results, GeneratedProbeStatus::UnsupportedTypeCheck) + status_count(
        results,
        GeneratedProbeStatus::UnsupportedRuntime,
    ) + status_count(results, GeneratedProbeStatus::SemanticMismatch) + status_count(results, GeneratedProbeStatus::Crash)
        + status_count(results, GeneratedProbeStatus::Timeout) + status_count(results, GeneratedProbeStatus::GenerationError)
        + status_count(results, GeneratedProbeStatus::GuardRejected) + status_count(results, GeneratedProbeStatus::UnknownError)
}

/// Every generated result is counted under exactly one status: the status
/// counts of a report add up to the number of results.
pub proof fn lemma_status_counts_partition(results: Seq<GeneratedProbeResult>)
    ensures
        status_total(results) == results.len(),
    decreases results.len(),
{
    if results.len() > 0 {
        lemma_status_counts_partition(results.drop_last());
    }
}

proof fn lemma_counts_bounded(results: Seq<GeneratedProbeResult>, status: GeneratedProbeStatus)
    ensures
        status_count(results, status) <= results.len(),
        accepted_count(results) <= results.len(),
    decreases results.len(),
{
    if results.len() > 0 {
        lemma_counts_bounded(results.drop_last(), status);
    }
}

/// The report summary: every status by name, with the number of results that have it.
pub open spec fn summarizes(summary: TextMap<usize>, results: Seq<GeneratedProbeResult>) -> bool {
    &&& summary.wf()
    &&& forall|status: GeneratedProbeStatus| #[trigger]
        summary.view_map().contains_key(status.name()) && summary.view_map()[status.name()]
            == status_count(results, status)
    &&& forall|name: Seq<char>| #[trigger]
        summary.view_map().contains_key(name) ==> exists|status: GeneratedProbeStatus|
            status.name() == name
    &&& summary.key_seq().len() == 10
}

fn generated_summary(results: &Vec<GeneratedProbeResult>) -> (summary: TextMap<usize>)
    ensures
        summarizes(summary, results@),
{
    let mut counts: Vec<usize> = vec![0, 0, 0, 0, 0, 0, 0, 0, 0, 0];
    let mut i: usize = 0;
    while i < results.len()
        invariant
            i <= results@.len(),
            counts@.len() == 10,
            forall|k: int| 0 <= k < 10 ==> #[trigger] counts@[k] == status_count(
                results@.take(i as int),
                GeneratedProbeStatus::every()[k],
            ),
        decreases results@.len() - i,
    {
        let status = results[i].status;
        let k = position_of(status);
        proof {
            assert(results@.take(i + 1).drop_last() =~= results@.take(i as int));
            lemma_counts_bounded(results@.take(i as int), status);
        }
        let next = counts[k] + 1;
        counts.set(k, next);
        i = i + 1;
    }
    assert(results@.take(results@.len() as int) =~= results@);
    let summary = summary_from_counts(&counts);
    proof {
        assert forall|status: GeneratedProbeStatus| #[trigger]
            summary.view_map().contains_key(status.name()) && summary.view_map()[status.name()]
                == status_count(results@, status) by {
            let j = status_position(status);
            assert(GeneratedProbeStatus::every()[j] == status);
        }
    }
    summary
}

fn summary_from_counts(counts: &Vec<usize>) -> (summary: TextMap<usize>)
    requires
        counts@.len() == 10,
    ensures
        summary.wf(),
        summary.key_seq().len() == 10,
        forall|j: int| 0 <= j < 10 ==> #[trigger] summary.view_map().contains_key(
            GeneratedProbeStatus::every()[j].name(),
        ),
        forall|j: int| 0 <= j < 10 ==> summary.view_map()[#[trigger] GeneratedProbeStatus::every()[j].name()] == counts@[j],
        forall|name: Seq<char>| #[trigger]
            summary.view_map().contains_key(name) ==> exists|status: GeneratedProbeStatus|
                status.name() == name,
{
    let statuses = GeneratedProbeStatus::all();
    let mut summary: TextMap<usize> = TextMap::new();
    let mut k: usize = 0;
    while k < 10
        invariant
            k <= 10,
            statuses@ == GeneratedProbeStatus::every(),
            counts@.len() == 10,
            summary.wf(),
            summary.key_seq().len() == k,
            forall|j: int| 0 <= j < k ==> #[trigger] summary.view_map().contains_key(
                GeneratedProbeStatus::every()[j].name(),
            ),
            forall|j: int| 0 <= j < k ==> summary.view_map()[#[trigger] GeneratedProbeStatus::every()[j].name()] == counts@[j],
            forall|name: Seq<char>| #[trigger]
                summary.view_map().contains_key(name) ==> exists|j: int|
                    0 <= j < k && GeneratedProbeStatus::every()[j].name() == name,
        decreases 10 - k,
    {
        let status = statuses[k];
        let name = status.as_str().to_owned();
        proof {
            assert forall|j: int| 0 <= j < k implies GeneratedProbeStatus::every()[j].name()
                != status.name() by {
                lemma_generated_names_distinct(GeneratedProbeStatus::every()[j], status);
            }
            summary.lemma_dom_len();
        }
        let ghost before = summary.view_map();
        summary.insert(name, counts[k]);
        proof {
            summary.lemma_dom_len();
            assert(!before.contains_key(status.name()));
            assert(summary.view_map().dom() =~= before.dom().insert(status.name()));
        }
        k = k + 1;
    }
    proof {
        assert forall|name: Seq<char>| #[trigger]
            summary.view_map().contains_key(name) implies exists|status: GeneratedProbeStatus|
                status.name() == name by {
            let j = choose|j: int| 0 <= j < 10 && GeneratedProbeStatus::every()[j].name() == name;
            assert(GeneratedProbeStatus::every()[j].name() == name);
        }
    }
    summary
}

/// How often `node` occurs among `nodes`.
pub open spec fn node_occurrences(nodes: Seq<String>, node: Seq<char>) -> nat
    decreases nodes.len(),
{
    if nodes.len() == 0 {
        0
    } else {
        node_occurrences(nodes.drop_last(), node) + if nodes.last()@ == node {
            1nat
        } else {
            0nat
        }
    }
}

/// How often `node` occurs in the results that have `status`.
pub open spec fn outcome_count(
    results: Seq<GeneratedProbeResult>,
    node: Seq<char>,
    status: GeneratedProbeStatus,
) -> nat
    decreases results.len(),
{
    if results.len() == 0 {
        0
    } else {
        outcome_count(results.drop_last(), node, status) + if results.last().status == status {
            node_occurrences(results.last().ast_nodes@, node)
        } else {
            0nat
        }
    }
}

/// The number of node entries across `results`.
pub open spec fn total_nodes(results: Seq<GeneratedProbeResult>) -> nat
    decreases results.len(),
{
    if results.len() == 0 {
        0
    } else {
        total_nodes(results.drop_last()) + results.last().ast_nodes@.len()
    }
}

/// The count a two-level tally holds for `node` and the status called `name` (zero when absent).
pub open spec fn nested_count(outcomes: TextMap<TextMap<usize>>, node: Seq<char>, name: Seq<char>) -> nat {
    if outcomes.view_map().contains_key(node) && outcomes.view_map()[node].view_map().contains_key(
        name,
    ) {
        outcomes.view_map()[node].view_map()[name] as nat
    } else {
        0
    }
}

/// A well-formed two-level tally whose stored counts are positive and keyed by status names.
pub open spec fn tidy_outcomes(outcomes: TextMap<TextMap<usize>>) -> bool {
    &&& outcomes.wf()
    &&& forall|node: Seq<char>| #[trigger]
        outcomes.view_map().contains_key(node) ==> outcomes.view_map()[node].wf()
    &&& forall|node: Seq<char>, name: Seq<char>|
        outcomes.view_map().contains_key(node) && #[trigger] outcomes.view_map()[node].view_map().contains_key(
            name,
        ) ==> outcomes.view_map()[node].view_map()[name] > 0 && exists|status: GeneratedProbeStatus|
            status.name() == name
}

/// The node outcomes of a report: for every node and status, how often the node
/// occurs in the results with that status.
pub open spec fn tallies(outcomes: TextMap<TextMap<usize>>, results: Seq<GeneratedProbeResult>) -> bool {
    &&& tidy_outcomes(outcomes)
    &&& forall|node: Seq<char>, status: GeneratedProbeStatus| #[trigger]
        nested_count(outcomes, node, status.name()) == outcome_count(results, node, status)
}

proof fn lemma_occurrences_bounded(nodes: Seq<String>, node: Seq<char>)
    ensures
        node_occurrences(nodes, node) <= nodes.len(),
    decreases nodes.len(),
{
    if nodes.len() > 0 {
        lemma_occurrences_bounded(nodes.drop_last(), node);
    }
}

proof fn lemma_outcomes_bounded(
    results: Seq<GeneratedProbeResult>,
    node: Seq<char>,
    status: GeneratedProbeStatus,
)
    ensures
        outcome_count(results, node, status) <= total_nodes(results),
    decreases results.len(),
{
    if results.len() > 0 {
        lemma_outcomes_bounded(results.drop_last(), node, status);
        lemma_occurrences_bounded(results.last().ast_nodes@, node);
    }
}

proof fn lemma_total_prefix(results: Seq<GeneratedProbeResult>, i: int)
    requires
        0 <= i < results.len(),
    ensures
        total_nodes(results.take(i)) + results[i].ast_nodes@.len() <= total_nodes(results),
    decreases results.len(),
{
    if i == results.len() - 1 {
        assert(results.drop_last() =~= results.take(i));
    } else {
        assert(results.drop_last().take(i) =~= results.take(i));
        lemma_total_prefix(results.drop_last(), i);
    }
}

fn generated_outcomes(results: &Vec<GeneratedProbeResult>) -> (outcomes: TextMap<TextMap<usize>>)
    requires
        total_nodes(results@) <= usize::MAX,
    ensures
        tallies(outcomes, results@),
{
    let mut outcomes: TextMap<TextMap<usize>> = TextMap::new();
    let mut i: usize = 0;
    while i < results.len()
        invariant
            i <= results@.len(),
            total_nodes(results@) <= usize::MAX,
            tallies(outcomes, results@.take(i as int)),
        decreases results@.len() - i,
    {
        let result = &results[i];
        let status = result.status;
        let name = status.as_str();
        let ghost done = results@.take(i as int);
        proof {
            lemma_total_prefix(results@, i as int);
        }
        let mut j: usize = 0;
        while j < result.ast_nodes.len()
            invariant
                i < results@.len(),
                *result == results@[i as int],
                status == result.status,
                name@ == status.name(),
                done == results@.take(i as int),
                j <= result.ast_nodes@.len(),
                total_nodes(done) + result.ast_nodes@.len() <= usize::MAX,
                tidy_outcomes(outcomes),
                forall|node: Seq<char>, s: GeneratedProbeStatus| #[trigger]
                    nested_count(outcomes, node, s.name()) == outcome_count(done, node, s) + if s
                        == status {
                        node_occurrences(result.ast_nodes@.take(j as int), node)
                    } else {
                        0nat
                    },
            decreases result.ast_nodes@.len() - j,
        {
            let node = &result.ast_nodes[j];
            let ghost before = outcomes;
            let ghost key = node@;
            let removed = outcomes.remove(node.as_str());
            let mut inner = match removed {
                Some(existing) => {
                    proof {
                        assert(before.view_map().contains_key(key));
                    }
                    existing
                },
                None => TextMap::new(),
            };
            let current = match inner.get(name) {
                Some(count) => *count,
                None => 0,
            };
            proof {
                assert(current == nested_count(before, key, status.name()));
                lemma_outcomes_bounded(done, key, status);
                lemma_occurrences_bounded(result.ast_nodes@.take(j as int), key);
            }
            let ghost inner_before = inner.view_map();
            inner.insert(name.to_owned(), current + 1);
            let ghost inner_after = inner;
            outcomes.insert(node.clone(), inner);
            proof {
                let nodes = result.ast_nodes@;
                assert(nodes.take(j + 1).drop_last() =~= nodes.take(j as int));
                assert(nodes.take(j + 1).last() == nodes[j as int]);
                assert forall|n: Seq<char>, s: GeneratedProbeStatus| #[trigger]
                    nested_count(outcomes, n, s.name()) == outcome_count(done, n, s) + if s
                        == status {
                        node_occurrences(nodes.take(j + 1), n)
                    } else {
                        0nat
                    } by {
                    lemma_generated_names_distinct(s, status);
                    assert(nested_count(before, n, s.name()) == outcome_count(done, n, s) + if s
                        == status {
                        node_occurrences(nodes.take(j as int), n)
                    } else {
                        0nat
                    });
                    if n != key {
                        assert(outcomes.view_map()[n] == before.view_map()[n]);
                    }
                }
                assert forall|n: Seq<char>| #[trigger]
                    outcomes.view_map().contains_key(n) implies outcomes.view_map()[n].wf() by {
                    if n != key {
                        assert(before.view_map().contains_key(n));
                    }
                }
                assert forall|n: Seq<char>, nm: Seq<char>|
                    outcomes.view_map().contains_key(n) && #[trigger] outcomes.view_map()[n].view_map().contains_key(
                        nm,
                    ) implies outcomes.view_map()[n].view_map()[nm] > 0 && exists|s: GeneratedProbeStatus|
                        s.name() == nm by {
                    if n != key {
                        assert(before.view_map().contains_key(n));
                        assert(before.view_map()[n].view_map().contains_key(nm));
                    } else if nm != status.name() {
                        assert(inner_before.contains_key(nm));
                        assert(before.view_map().contains_key(n));
                    }
                }
            }
            j = j + 1;
        }
        proof {
            let next = results@.take(i + 1);
            assert(next.drop_last() =~= done);
            assert(next.last() == results@[i as int]);
            assert(result.ast_nodes@.take(result.ast_nodes@.len() as int) =~= result.ast_nodes@);
        }
        i = i + 1;
    }
    assert(results@.take(results@.len() as int) =~= results@);
    outcomes
}

/// The report over one generated corpus.
#[derive(Debug, Clone, PartialEq, Eq)]
pub struct GeneratedReport {
    pub schema_version: u64,
    pub generator: GeneratorIdentity,
    pub safety: GeneratedSafety,
    pub config: GeneratedProbeConfig,
    pub summary: TextMap<usize>,
    pub fully_accepted: usize,
    pub ast_node_outcomes: TextMap<TextMap<usize>>,
    pub results: Vec<GeneratedProbeResult>,
}

fn count_accepted(results: &Vec<GeneratedProbeResult>) -> (count: usize)
    ensures
        count == accepted_count(results@),
{
    let mut count: usize = 0;
    let mut i: usize = 0;
    while i < results.len()
        invariant
            i <= results@.len(),
            count == accepted_count(results@.take(i as int)),
        decreases results@.len() - i,
    {
        proof {
            assert(results@.take(i + 1).drop_last() =~= results@.take(i as int));
            lemma_counts_bounded(results@.take(i as int), GeneratedProbeStatus::Completed);
        }
        if results[i].fully_accepted {
            count = count + 1;
        }
        i = i + 1;
    }
    assert(results@.take(results@.len() as int) =~= results@);
    count
}

/// `report` is the report of `results`, generated under `config` by the named generator version.
pub open spec fn is_generated_report(
    report: GeneratedReport,
    config: GeneratedProbeConfig,
    generator_version: Option<Seq<char>>,
    results: Seq<GeneratedProbeResult>,
) -> bool {
    &&& report.schema_version == GENERATED_SCHEMA_VERSION
    &&& report.generator.distribution@ == "pysource-codegen"@
    &&& text_option(report.generator.version) == generator_version
    &&& report.safety.mode@ == "dead_branch"@
    &&& !report.safety.raw_generated_code_executed
    &&& report.safety.description@ == "generated module body is parsed under `if False`"@
    &&& report.config == config
    &&& summarizes(report.summary, results)
    &&& report.fully_accepted == accepted_count(results)
    &&& tallies(report.ast_node_outcomes, results)
    &&& report.results@ == results
}

/// Assemble the report of a generated corpus: every status is counted, even
/// when no result has it, and every node is tallied per status.
pub fn build_generated_report(
    config: GeneratedProbeConfig,
    generator_version: Option<String>,
    results: Vec<GeneratedProbeResult>,
) -> (report: GeneratedReport)
    requires
        total_nodes(results@) <= usize::MAX,
    ensures
        is_generated_report(report, config, text_option(generator_version), results@),
{
    let summary = generated_summary(&results);
    let fully_accepted = count_accepted(&results);
    let ast_node_outcomes = generated_outcomes(&results);
    GeneratedReport {
        schema_version: GENERATED_SCHEMA_VERSION,
        generator: GeneratorIdentity { distribution: "pysource-codegen", version: generator_version },
        safety: GeneratedSafety {
            mode: "dead_branch",
            raw_generated_code_executed: false,
            description: "generated module body is parsed under `if False`",
        },
        config,
        summary,
        fully_accepted,
        ast_node_outcomes,
        results,
    }
}

/// Different outcomes have different report names.
pub proof fn lemma_outcome_names_distinct(a: MinimizationOutcome, b: MinimizationOutcome)
    ensures
        a != b ==> a.name() != b.name(),
{
    reveal_strlit("minimized");
    reveal_strlit("unchanged");
    reveal_strlit("error");
    if a != b && a.name() == b.name() {
        assert(a.name().len() == b.name().len());
        assert(a.name()[0] == b.name()[0]);
    }
}

/// How many minimization records have `outcome`.
pub open spec fn outcome_tally(results: Seq<MinimizedFailure>, outcome: MinimizationOutcome) -> nat
    decreases results.len(),
{
    if results.len() == 0 {
        0
    } else {
        outcome_tally(results.drop_last(), outcome) + if results.last().outcome == outcome {
            1nat
        } else {
            0nat
        }
    }
}

/// The checker calls of all records, added up with saturation at `u64::MAX`.
pub open spec fn checker_total(results: Seq<MinimizedFailure>) -> nat
    decreases results.len(),
{
    if results.len() == 0 {
        0
    } else {
        let sum: nat = checker_total(results.drop_last()) + results.last().checker_calls as nat;
        if sum > u64::MAX {
            u64::MAX as nat
        } else {
            sum
        }
    }
}

/// The distinct hashes of the minimized programs.
pub open spec fn minimized_hashes(results: Seq<MinimizedFailure>) -> Set<Seq<char>>
    decreases results.len(),
{
    if results.len() == 0 {
        Set::empty()
    } else {
        let earlier = minimized_hashes(results.drop_last());
        match results.last().minimized_source_sha256 {
            Some(hash) => earlier.insert(hash@),
            None => earlier,
        }
    }
}

proof fn lemma_outcome_tally_bounded(results: Seq<MinimizedFailure>, outcome: MinimizationOutcome)
    ensures
        outcome_tally(results, outcome) <= results.len(),
    decreases results.len(),
{
    if results.len() > 0 {
        lemma_outcome_tally_bounded(results.drop_last(), outcome);
    }
}

/// The report summary of minimization outcomes.
pub open spec fn outcome_summary(summary: TextMap<usize>, results: Seq<MinimizedFailure>) -> bool {
    &&& summary.wf()
    &&& forall|outcome: MinimizationOutcome| #[trigger]
        summary.view_map().contains_key(outcome.name()) && summary.view_map()[outcome.name()]
            == outcome_tally(results, outcome)
    &&& forall|name: Seq<char>| #[trigger]
        summary.view_map().contains_key(name) ==> exists|outcome: MinimizationOutcome|
            outcome.name() == name
    &&& summary.key_seq().len() == 3
}

fn minimization_summary(results: &Vec<MinimizedFailure>) -> (summary: TextMap<usize>)
    ensures
        outcome_summary(summary, results@),
{
    let mut minimized: usize = 0;
    let mut unchanged: usize = 0;
    let mut failed: usize = 0;
    let mut i: usize = 0;
    while i < results.len()
        invariant
            i <= results@.len(),
            minimized == outcome_tally(results@.take(i as int), MinimizationOutcome::Minimized),
            unchanged == outcome_tally(results@.take(i as int), MinimizationOutcome::Unchanged),
            failed == outcome_tally(results@.take(i as int), MinimizationOutcome::Error),
        decreases results@.len() - i,
    {
        proof {
            assert(results@.take(i + 1).drop_last() =~= results@.take(i as int));
            lemma_outcome_tally_bounded(results@.take(i as int), MinimizationOutcome::Minimized);
            lemma_outcome_tally_bounded(results@.take(i as int), MinimizationOutcome::Unchanged);
            lemma_outcome_tally_bounded(results@.take(i as int), MinimizationOutcome::Error);
        }
        match results[i].outcome {
            MinimizationOutcome::Minimized => minimized = minimized + 1,
            MinimizationOutcome::Unchanged => unchanged = unchanged + 1,
            MinimizationOutcome::Error => failed = failed + 1,
        }
        i = i + 1;
    }
    assert(results@.take(results@.len() as int) =~= results@);
    let mut summary: TextMap<usize> = TextMap::new();
    summary.insert("minimized".to_owned(), minimized);
    summary.insert("unchanged".to_owned(), unchanged);
    summary.insert("error".to_owned(), failed);
    proof {
        lemma_outcome_names_distinct(MinimizationOutcome::Minimized, MinimizationOutcome::Unchanged);
        lemma_outcome_names_distinct(MinimizationOutcome::Minimized, MinimizationOutcome::Error);
        lemma_outcome_names_distinct(MinimizationOutcome::Unchanged, MinimizationOutcome::Error);
        assert(summary.view_map().dom() =~= set![
            MinimizationOutcome::Minimized.name(),
            MinimizationOutcome::Unchanged.name(),
            MinimizationOutcome::Error.name(),
        ]);
        summary.lemma_dom_len();
        assert forall|name: Seq<char>| #[trigger]
            summary.view_map().contains_key(name) implies exists|outcome: MinimizationOutcome|
                outcome.name() == name by {
            if name == MinimizationOutcome::Minimized.name() {
            } else if name == MinimizationOutcome::Unchanged.name() {
            } else {
                assert(name == MinimizationOutcome::Error.name());
            }
        }
    }
    summary
}

/// The report over all minimization attempts of a run.
#[derive(Debug, Clone, PartialEq, Eq)]
pub struct MinimizationReport {
    pub schema_version: u64,
    pub minimizer: GeneratorIdentity,
    pub safety: MinimizationSafety,
    pub config: MinimizationConfig,
    pub eligible_failures: usize,
    pub attempted: usize,
    pub unique_minimized_cases: usize,
    pub summary: TextMap<usize>,
    pub total_checker_calls: u64,
    pub results: Vec<MinimizedFailure>,
}

fn total_checker_calls(results: &Vec<MinimizedFailure>) -> (total: u64)
    ensures
        total == checker_total(results@),
{
    let mut total: u64 = 0;
    let mut i: usize = 0;
    while i < results.len()
        invariant
            i <= results@.len(),
            total == checker_total(results@.take(i as int)),
        decreases results@.len() - i,
    {
        assert(results@.take(i + 1).drop_last() =~= results@.take(i as int));
        total = total.saturating_add(results[i].checker_calls);
        i = i + 1;
    }
    assert(results@.take(results@.len() as int) =~= results@);
    total
}

fn count_unique_minimized(results: &Vec<MinimizedFailure>) -> (count: usize)
    ensures
        count == minimized_hashes(results@).len(),
{
    let mut seen: TextMap<bool> = TextMap::new();
    let mut i: usize = 0;
    while i < results.len()
        invariant
            i <= results@.len(),
            seen.wf(),
            seen.view_map().dom() == minimized_hashes(results@.take(i as int)),
        decreases results@.len() - i,
    {
        assert(results@.take(i + 1).drop_last() =~= results@.take(i as int));
        assert(results@.take(i + 1).last() == results@[i as int]);
        match &results[i].minimized_source_sha256 {
            Some(hash) => {
                let ghost before = seen.view_map();
                seen.insert(hash.clone(), true);
                assert(seen.view_map().dom() =~= before.dom().insert(hash@));
            },
            None => {},
        }
        i = i + 1;
    }
    assert(results@.take(results@.len() as int) =~= results@);
    proof {
        seen.lemma_dom_len();
    }
    seen.len()
}

/// `report` is the report of the minimization `results` of a run with
/// `eligible_failures` fingerprinted failures.
pub open spec fn is_minimization_report(
    report: MinimizationReport,
    config: MinimizationConfig,
    minimizer_version: Option<Seq<char>>,
    eligible_failures: int,
    results: Seq<MinimizedFailure>,
) -> bool {
    &&& report.schema_version == MINIMIZATION_SCHEMA_VERSION
    &&& report.minimizer.distribution@ == "pysource-minimize"@
    &&& text_option(report.minimizer.version) == minimizer_version
    &&& !report.safety.raw_generated_code_executed
    &&& report.safety.candidate_execution_mode@ == "dead_branch"@
    &&& report.safety.predicate@ == "exact_status_error_type_and_message"@
    &&& report.config == config
    &&& report.eligible_failures == eligible_failures
    &&& report.attempted == results.len()
    &&& report.unique_minimized_cases == minimized_hashes(results).len()
    &&& outcome_summary(report.summary, results)
    &&& report.total_checker_calls == checker_total(results)
    &&& report.results@ == results
}

/// Assemble the report of a run's minimization attempts.
pub fn build_minimization_report(
    config: MinimizationConfig,
    minimizer_version: Option<String>,
    eligible_failures: usize,
    results: Vec<MinimizedFailure>,
) -> (report: MinimizationReport)
    ensures
        is_minimization_report(
            report,
            config,
            text_option(minimizer_version),
            eligible_failures as int,
            results@,
        ),
{
    let summary = minimization_summary(&results);
    let total_checker_calls = total_checker_calls(&results);
    let unique_minimized_cases = count_unique_minimized(&results);
    MinimizationReport {
        schema_version: MINIMIZATION_SCHEMA_VERSION,
        minimizer: GeneratorIdentity { distribution: "pysource-minimize", version: minimizer_version },
        safety: MinimizationSafety {
            raw_generated_code_executed: false,
            candidate_execution_mode: "dead_branch",
            predicate: "exact_status_error_type_and_message",
        },
        config,
        eligible_failures,
        attempted: results.len(),
        unique_minimized_cases,
        summary,
        total_checker_calls,
        results,
    }
}

/// A catalog probe with an empty id, category or source.
pub open spec fn probe_incomplete(probe: ProbeSpec) -> bool {
    probe.id@.len() == 0 || probe.category@.len() == 0 || probe.source@.len() == 0
}

/// The first problem of the catalog at or after position `k`, as the message that reports it.
pub open spec fn catalog_problem_from(catalog: Seq<ProbeSpec>, k: int) -> Option<Seq<char>>
    decreases catalog.len() - k,
{
    if k < 0 || k >= catalog.len() {
        None
    } else if probe_incomplete(catalog[k]) {
        Some("probe "@ + debug_text(catalog[k].id@) + " has an empty required field"@)
    } else if exists|j: int| 0 <= j < k && #[trigger] catalog[j].id@ == catalog[k].id@ {
        Some("duplicate probe id "@ + debug_text(catalog[k].id@))
    } else {
        catalog_problem_from(catalog, k + 1)
    }
}

/// Every probe needs an id, a category and a source, and ids are unique.
pub fn validate_catalog(catalog: &[ProbeSpec]) -> (result: Result<(), DiscoverError>)
    ensures
        result is Ok <==> catalog_problem_from(catalog@, 0) is None,
        result matches Err(error) ==> (error matches DiscoverError::InvalidConfig(message)
            && catalog_problem_from(catalog@, 0) == Some(message@)),
{
    let mut seen: TextMap<bool> = TextMap::new();
    let mut k: usize = 0;
    while k < catalog.len()
        invariant
            k <= catalog@.len(),
            seen.wf(),
            forall|id: Seq<char>| #[trigger]
                seen.view_map().contains_key(id) <==> exists|j: int|
                    0 <= j < k && #[trigger] catalog@[j].id@ == id,
            catalog_problem_from(catalog@, 0) == catalog_problem_from(catalog@, k as int),
        decreases catalog@.len() - k,
    {
        let probe = &catalog[k];
        if text_is_empty(probe.id.as_str()) || text_is_empty(probe.category.as_str())
            || text_is_empty(probe.source.as_str()) {
            let head = concat_str("probe ", debug_quoted(probe.id.as_str()).as_str());
            return Err(
                DiscoverError::InvalidConfig(
                    concat_str(head.as_str(), " has an empty required field"),
                ),
            );
        }
        if seen.get(probe.id.as_str()).is_some() {
            let quoted = debug_quoted(probe.id.as_str());
            proof {
                assert(seen.view_map().contains_key(probe.id@));
            }
            return Err(DiscoverError::InvalidConfig(concat_str("duplicate probe id ", quoted.as_str())));
        }
        let ghost before = seen.view_map();
        assert(!before.contains_key(probe.id@));
        seen.insert(probe.id.clone(), true);
        proof {
            assert(!(exists|j: int| 0 <= j < k && #[trigger] catalog@[j].id@ == catalog@[k as int].id@));
            assert forall|id: Seq<char>| #[trigger]
                seen.view_map().contains_key(id) <==> exists|j: int|
                    0 <= j < k + 1 && #[trigger] catalog@[j].id@ == id by {
                if id == probe.id@ {
                    assert(catalog@[k as int].id@ == id);
                } else if before.contains_key(id) {
                    let j = choose|j: int| 0 <= j < k && #[trigger] catalog@[j].id@ == id;
                    assert(catalog@[j].id@ == id);
                }
            }
        }
        k = k + 1;
    }
    Ok(())
}

/// A module Monty cannot import is a runtime gap, not a type-checking one: a
/// compile error of type `ImportError` or `ModuleNotFoundError` that is not a
/// parse gap is `UnsupportedRuntime` for catalog probes and generated programs
/// alike, and is recorded as Monty's runtime error.
pub proof fn lemma_missing_import_is_runtime_gap(error_type: Seq<char>, error_message: Seq<char>)
    requires
        error_type == "ImportError"@ || error_type == "ModuleNotFoundError"@,
        !reports_parse_gap(error_type, error_message),
    ensures
        baseline_status_of(error_type, error_message) == ProbeStatus::UnsupportedRuntime,
        generated_status_of(error_type, error_message) == GeneratedProbeStatus::UnsupportedRuntime,
        normalized_error(baseline_status_of(error_type, error_message), error_type, error_message).0
            == "MontyRuntimeError"@,
{
}

/// An inert program counts as completed exactly when Monty ran it and it
/// returned `None`; a runtime error from Monty is always a runtime gap, and a
/// compile error never counts as completed.
pub proof fn lemma_inert_completion(outcome: Result<MontyResponse, WorkerFailure>)
    ensures
        inert_status(outcome) == GeneratedProbeStatus::Completed <==> (outcome matches Ok(
            MontyResponse::Return { is_none, .. },
        ) && is_none),
        outcome matches Ok(MontyResponse::RuntimeError { .. }) ==> inert_status(outcome)
            == GeneratedProbeStatus::UnsupportedRuntime,
        outcome matches Ok(MontyResponse::Return { is_none, .. }) && !is_none ==> inert_status(outcome)
            == GeneratedProbeStatus::SemanticMismatch,
        outcome matches Err(failure) ==> inert_status(outcome) == if failure.timed_out {
            GeneratedProbeStatus::Timeout
        } else {
            GeneratedProbeStatus::Crash
        },
{
}

/// A `SyntaxError` from Monty is a parse gap, for catalog probes and
/// generated programs alike, and is recorded as `MontySyntaxError` with
/// Monty's message.
pub proof fn lemma_syntax_error_is_parse_gap(error_type: Seq<char>, error_message: Seq<char>)
    requires
        error_type == "SyntaxError"@,
    ensures
        baseline_status_of(error_type, error_message) == ProbeStatus::UnsupportedParse,
        generated_status_of(error_type, error_message) == GeneratedProbeStatus::UnsupportedParse,
        normalized_error(baseline_status_of(error_type, error_message), error_type, error_message) == (
            "MontySyntaxError"@,
            error_message,
        ),
{
}

/// A compile error that is neither a parse gap nor a missing module is a
/// type-checking gap, recorded as `MontyTypingError` with Monty's message.
pub proof fn lemma_other_compile_errors_are_type_checks(error_type: Seq<char>, error_message: Seq<char>)
    requires
        !reports_parse_gap(error_type, error_message),
        error_type != "ImportError"@,
        error_type != "ModuleNotFoundError"@,
    ensures
        baseline_status_of(error_type, error_message) == ProbeStatus::UnsupportedTypeCheck,
        generated_status_of(error_type, error_message) == GeneratedProbeStatus::UnsupportedTypeCheck,
        normalized_error(baseline_status_of(error_type, error_message), error_type, error_message) == (
            "MontyTypingError"@,
            error_message,
        ),
{
}

} // verus!
