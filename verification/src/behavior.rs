//! The behavioral baseline: what Monty did with each probe of the CPython
//! catalog, judged against the value CPython computed, and the report over
//! the whole catalog.

use vstd::prelude::*;

use crate::discovery::{
    baseline_compile_error_status, baseline_status_of, node_occurrences, normalize_monty_error,
    normalized_error, MontyResponse, ProbeSpec, ProbeStatus, WorkerFailure, PROBE_SCHEMA_VERSION,
};
use crate::ordered::TextMap;
use crate::text::text_option;
use crate::wire::{decode_wire_json, decodes, strictly_equal, wire_strict_equal, JsonValue};

verus! {

/// What became of one catalog probe.
#[derive(Debug)]
pub struct ProbeResult {
    pub id: String,
    pub category: String,
    pub description: String,
    pub status: ProbeStatus,
    pub ast_nodes: Vec<String>,
    pub expected: JsonValue,
    pub actual: JsonValue,
    pub error_type: Option<String>,
    pub error_message: Option<String>,
}

/// The result keeps the probe's identity and the nodes CPython saw in it.
pub open spec fn describes_probe(result: ProbeResult, spec: ProbeSpec, ast_nodes: Seq<String>) -> bool {
    &&& result.id@ == spec.id@
    &&& result.category@ == spec.category@
    &&& result.description@ == spec.description@
    &&& result.ast_nodes@ == ast_nodes
}

/// A probe whose source CPython itself rejected: it tests nothing.
pub fn invalid_probe_result(
    spec: ProbeSpec,
    ast_nodes: Vec<String>,
    error_type: String,
    error_message: String,
) -> (result: ProbeResult)
    ensures
        describes_probe(result, spec, ast_nodes@),
        result.status == ProbeStatus::InvalidProbe,
        result.expected is Null,
        result.actual is Null,
        text_option(result.error_type) == Some(error_type@),
        text_option(result.error_message) == Some(error_message@),
{
    ProbeResult {
        id: spec.id,
        category: spec.category,
        description: spec.description,
        status: ProbeStatus::InvalidProbe,
        ast_nodes,
        expected: JsonValue::Null,
        actual: JsonValue::Null,
        error_type: Some(error_type),
        error_message: Some(error_message),
    }
}

/// The status a probe earns from Monty's outcome, given the decoded value
/// Monty returned (when it returned one) and CPython's value.
pub open spec fn baseline_status(
    outcome: Result<MontyResponse, WorkerFailure>,
    actual: JsonValue,
    expected: JsonValue,
) -> ProbeStatus {
    match outcome {
        Ok(MontyResponse::Return { .. }) => if strictly_equal(actual, expected) {
            ProbeStatus::Supported
        } else {
            ProbeStatus::SemanticMismatch
        },
        Ok(MontyResponse::CompileError { error_type, error_message }) => baseline_status_of(
            error_type@,
            error_message@,
        ),
        Ok(MontyResponse::RuntimeError { .. }) => ProbeStatus::UnsupportedRuntime,
        Err(failure) => if failure.timed_out {
            ProbeStatus::Timeout
        } else {
            ProbeStatus::Crash
        },
    }
}

/// The error type and message a probe records for Monty's outcome.
pub open spec fn baseline_error(outcome: Result<MontyResponse, WorkerFailure>) -> (
    Option<Seq<char>>,
    Option<Seq<char>>,
) {
    match outcome {
        Ok(MontyResponse::Return { .. }) => (None, None),
        Ok(MontyResponse::CompileError { error_type, error_message }) => {
            let named = normalized_error(
                baseline_status_of(error_type@, error_message@),
                error_type@,
                error_message@,
            );
            (Some(named.0), Some(named.1))
        },
        Ok(MontyResponse::RuntimeError { error_type, error_message }) => {
            let named = normalized_error(ProbeStatus::UnsupportedRuntime, error_type@, error_message@);
            (Some(named.0), Some(named.1))
        },
        Err(failure) => (Some("MontyWorkerError"@), Some(failure.message@)),
    }
}

/// Judge Monty's outcome on a probe against CPython's decoded value: a
/// returned value is decoded and must equal CPython's strictly; errors are
/// named by the stage that raised them; a worker that failed is a timeout or
/// a crash.
pub fn baseline_result(
    spec: ProbeSpec,
    ast_nodes: Vec<String>,
    expected: JsonValue,
    outcome: Result<MontyResponse, WorkerFailure>,
) -> (result: ProbeResult)
    ensures
        describes_probe(result, spec, ast_nodes@),
        result.expected == expected,
        outcome matches Ok(MontyResponse::Return { value, .. }) ==> decodes(value, result.actual),
        !(outcome matches Ok(MontyResponse::Return { .. })) ==> result.actual is Null,
        result.status == baseline_status(outcome, result.actual, expected),
        (text_option(result.error_type), text_option(result.error_message)) == baseline_error(outcome),
{
    let (status, actual, error_type, error_message) = match outcome {
        Ok(MontyResponse::Return { value, .. }) => {
            let actual = decode_wire_json(&value);
            let status = if wire_strict_equal(&actual, &expected) {
                ProbeStatus::Supported
            } else {
                ProbeStatus::SemanticMismatch
            };
            (status, actual, None, None)
        },
        Ok(MontyResponse::CompileError { error_type, error_message }) => {
            let status = baseline_compile_error_status(error_type.as_str(), error_message.as_str());
            let (named_type, named_message) = normalize_monty_error(status, error_type, error_message);
            (status, JsonValue::Null, Some(named_type), Some(named_message))
        },
        Ok(MontyResponse::RuntimeError { error_type, error_message }) => {
            let status = ProbeStatus::UnsupportedRuntime;
            let (named_type, named_message) = normalize_monty_error(status, error_type, error_message);
            (status, JsonValue::Null, Some(named_type), Some(named_message))
        },
        Err(failure) => {
            let status = if failure.timed_out {
                ProbeStatus::Timeout
            } else {
                ProbeStatus::Crash
            };
            (status, JsonValue::Null, Some("MontyWorkerError".to_owned()), Some(failure.message))
        },
    };
    ProbeResult {
        id: spec.id,
        category: spec.category,
        description: spec.description,
        status,
        ast_nodes,
        expected,
        actual,
        error_type,
        error_message,
    }
}


/// The report over the whole catalog.
#[derive(Debug)]
pub struct BehavioralReport {
    pub probe_schema_version: u64,
    pub summary: TextMap<usize>,
    pub ast_node_coverage: TextMap<usize>,
    pub features: TextMap<ProbeResult>,
}

/// How many of `results` have `status`.
pub open spec fn probe_status_count(results: Seq<ProbeResult>, status: ProbeStatus) -> nat
    decreases results.len(),
{
    if results.len() == 0 {
        0
    } else {
        probe_status_count(results.drop_last(), status) + if results.last().status == status {
            1nat
        } else {
            0nat
        }
    }
}

/// How many nodes the results name in all, repeats included.
pub open spec fn probe_nodes(results: Seq<ProbeResult>) -> nat
    decreases results.len(),
{
    if results.len() == 0 {
        0
    } else {
        probe_nodes(results.drop_last()) + results.last().ast_nodes@.len()
    }
}

/// How often `node` occurs over all the results.
pub open spec fn node_coverage(results: Seq<ProbeResult>, node: Seq<char>) -> nat
    decreases results.len(),
{
    if results.len() == 0 {
        0
    } else {
        node_coverage(results.drop_last(), node) + node_occurrences(results.last().ast_nodes@, node)
    }
}

/// The results by probe id; a later result with the same id replaces an earlier one.
pub open spec fn features_of(results: Seq<ProbeResult>) -> Map<Seq<char>, ProbeResult>
    decreases results.len(),
{
    if results.len() == 0 {
        Map::empty()
    } else {
        features_of(results.drop_last()).insert(results.last().id@, results.last())
    }
}

/// The report summary: every status by name, with the number of results that have it.
pub open spec fn probe_summarizes(summary: TextMap<usize>, results: Seq<ProbeResult>) -> bool {
    &&& summary.wf()
    &&& forall|status: ProbeStatus| #[trigger]
        summary.view_map().contains_key(status.name()) && summary.view_map()[status.name()]
            == probe_status_count(results, status)
    &&& forall|name: Seq<char>| #[trigger]
        summary.view_map().contains_key(name) ==> exists|status: ProbeStatus| status.name() == name
    &&& summary.key_seq().len() == 9
}

/// The count a tally holds for `node`, zero when it holds none.
pub open spec fn tally_of(tally: TextMap<usize>, node: Seq<char>) -> nat {
    if tally.view_map().contains_key(node) {
        tally.view_map()[node] as nat
    } else {
        0
    }
}

/// The coverage tally: each node that occurs, with how often it occurs.
pub open spec fn covers(coverage: TextMap<usize>, results: Seq<ProbeResult>) -> bool {
    &&& coverage.wf()
    &&& forall|node: Seq<char>| #[trigger]
        coverage.view_map().contains_key(node) <==> node_coverage(results, node) > 0
    &&& forall|node: Seq<char>| #[trigger] tally_of(coverage, node) == node_coverage(results, node)
}

/// `report` is the catalog report of `results`.
pub open spec fn is_behavioral_report(report: BehavioralReport, results: Seq<ProbeResult>) -> bool {
    &&& report.probe_schema_version == PROBE_SCHEMA_VERSION
    &&& probe_summarizes(report.summary, results)
    &&& covers(report.ast_node_coverage, results)
    &&& report.features.wf()
    &&& report.features.view_map() == features_of(results)
}

proof fn lemma_probe_counts_bounded(results: Seq<ProbeResult>, status: ProbeStatus)
    ensures
        probe_status_count(results, status) <= results.len(),
    decreases results.len(),
{
    if results.len() > 0 {
        lemma_probe_counts_bounded(results.drop_last(), status);
    }
}

proof fn lemma_occurrences_at_most(nodes: Seq<String>, node: Seq<char>)
    ensures
        node_occurrences(nodes, node) <= nodes.len(),
    decreases nodes.len(),
{
    if nodes.len() > 0 {
        lemma_occurrences_at_most(nodes.drop_last(), node);
    }
}

proof fn lemma_coverage_at_most(results: Seq<ProbeResult>, node: Seq<char>)
    ensures
        node_coverage(results, node) <= probe_nodes(results),
    decreases results.len(),
{
    if results.len() > 0 {
        lemma_coverage_at_most(results.drop_last(), node);
        lemma_occurrences_at_most(results.last().ast_nodes@, node);
    }
}

proof fn lemma_nodes_prefix(results: Seq<ProbeResult>, i: int)
    requires
        0 <= i < results.len(),
    ensures
        probe_nodes(results.take(i)) + results[i].ast_nodes@.len() <= probe_nodes(results),
    decreases results.len() - i,
{
    if i + 1 < results.len() {
        lemma_nodes_prefix(results, i + 1);
        assert(results.take(i + 1).drop_last() =~= results.take(i));
    } else {
        assert(results.take(i + 1) =~= results);
        assert(results.drop_last() =~= results.take(i));
    }
}

/// The position of a status in report order.
fn probe_position(status: ProbeStatus) -> (position: usize)
    ensures
        position < 9,
        ProbeStatus::every()[position as int] == status,
{
    match status {
        ProbeStatus::Supported => 0,
        ProbeStatus::UnsupportedParse => 1,
        ProbeStatus::UnsupportedTypeCheck => 2,
        ProbeStatus::UnsupportedRuntime => 3,
        ProbeStatus::SemanticMismatch => 4,
        ProbeStatus::Crash => 5,
        ProbeStatus::Timeout => 6,
        ProbeStatus::InvalidProbe => 7,
        ProbeStatus::UnknownError => 8,
    }
}

proof fn lemma_probe_names_distinct(a: ProbeStatus, b: ProbeStatus)
    ensures
        a.name() == b.name() ==> a == b,
{
    reveal_strlit("supported");
    reveal_strlit("unsupported_parse");
    reveal_strlit("unsupported_type_check");
    reveal_strlit("unsupported_runtime");
    reveal_strlit("semantic_mismatch");
    reveal_strlit("crash");
    reveal_strlit("timeout");
    reveal_strlit("invalid_probe");
    reveal_strlit("unknown_error");
    if a.name() == b.name() && a != b {
        assert(a.name().len() == b.name().len());
        match a {
            ProbeStatus::UnsupportedParse => assert(a.name()[11] != b.name()[11]),
            ProbeStatus::UnsupportedRuntime => assert(a.name()[12] != b.name()[12]),
            ProbeStatus::Crash => assert(a.name()[0] != b.name()[0]),
            _ => assert(a.name()[0] != b.name()[0]),
        }
    }
}

fn probe_summary(results: &Vec<ProbeResult>) -> (summary: TextMap<usize>)
    ensures
        probe_summarizes(summary, results@),
{
    let mut counts: Vec<usize> = vec![0, 0, 0, 0, 0, 0, 0, 0, 0];
    let mut i: usize = 0;
    while i < results.len()
        invariant
            i <= results@.len(),
            counts@.len() == 9,
            forall|k: int| 0 <= k < 9 ==> #[trigger] counts@[k] == probe_status_count(
                results@.take(i as int),
                ProbeStatus::every()[k],
            ),
        decreases results@.len() - i,
    {
        let status = results[i].status;
        let k = probe_position(status);
        proof {
            assert(results@.take(i + 1).drop_last() =~= results@.take(i as int));
            lemma_probe_counts_bounded(results@.take(i as int), status);
        }
        let next = counts[k] + 1;
        counts.set(k, next);
        i = i + 1;
    }
    assert(results@.take(results@.len() as int) =~= results@);
    let statuses = ProbeStatus::all();
    let mut summary: TextMap<usize> = TextMap::new();
    let mut k: usize = 0;
    while k < 9
        invariant
            k <= 9,
            statuses@ == ProbeStatus::every(),
            counts@.len() == 9,
            forall|j: int| 0 <= j < 9 ==> #[trigger] counts@[j] == probe_status_count(
                results@,
                ProbeStatus::every()[j],
            ),
            summary.wf(),
            summary.key_seq().len() == k,
            forall|j: int| 0 <= j < k ==> #[trigger] summary.view_map().contains_key(
                ProbeStatus::every()[j].name(),
            ),
            forall|j: int| 0 <= j < k ==> summary.view_map()[#[trigger] ProbeStatus::every()[j].name()]
                == counts@[j],
            forall|name: Seq<char>| #[trigger]
                summary.view_map().contains_key(name) ==> exists|j: int|
                    0 <= j < k && ProbeStatus::every()[j].name() == name,
        decreases 9 - k,
    {
        let status = statuses[k];
        let name = status.as_str().to_owned();
        proof {
            assert forall|j: int| 0 <= j < k implies ProbeStatus::every()[j].name() != name@ by {
                lemma_probe_names_distinct(ProbeStatus::every()[j], status);
            }
            summary.lemma_dom_len();
        }
        let ghost before = summary.view_map();
        summary.insert(name, counts[k]);
        proof {
            summary.lemma_dom_len();
            assert(!before.contains_key(status.name()));
            assert(summary.view_map().dom() =~= before.dom().insert(status.name()));
            assert forall|nm: Seq<char>| #[trigger]
                summary.view_map().contains_key(nm) implies exists|j: int|
                    0 <= j < k + 1 && ProbeStatus::every()[j].name() == nm by {
                if nm != status.name() {
                    assert(before.contains_key(nm));
                    let j = choose|j: int| 0 <= j < k && ProbeStatus::every()[j].name() == nm;
                    assert(0 <= j < k + 1 && ProbeStatus::every()[j].name() == nm);
                } else {
                    assert(ProbeStatus::every()[k as int].name() == nm);
                }
            }
        }
        k = k + 1;
    }
    proof {
        assert forall|status: ProbeStatus| #[trigger]
            summary.view_map().contains_key(status.name()) && summary.view_map()[status.name()]
                == probe_status_count(results@, status) by {
            let j = match status {
                ProbeStatus::Supported => 0int,
                ProbeStatus::UnsupportedParse => 1,
                ProbeStatus::UnsupportedTypeCheck => 2,
                ProbeStatus::UnsupportedRuntime => 3,
                ProbeStatus::SemanticMismatch => 4,
                ProbeStatus::Crash => 5,
                ProbeStatus::Timeout => 6,
                ProbeStatus::InvalidProbe => 7,
                ProbeStatus::UnknownError => 8,
            };
            assert(ProbeStatus::every()[j] == status);
        }
        assert forall|name: Seq<char>| #[trigger]
            summary.view_map().contains_key(name) implies exists|status: ProbeStatus| status.name()
                == name by {
            let j = choose|j: int| 0 <= j < 9 && ProbeStatus::every()[j].name() == name;
            assert(ProbeStatus::every()[j].name() == name);
        }
    }
    summary
}


fn node_coverage_tally(results: &Vec<ProbeResult>) -> (coverage: TextMap<usize>)
    requires
        probe_nodes(results@) <= usize::MAX,
    ensures
        covers(coverage, results@),
{
    let mut coverage: TextMap<usize> = TextMap::new();
    let mut i: usize = 0;
    while i < results.len()
        invariant
            i <= results@.len(),
            probe_nodes(results@) <= usize::MAX,
            coverage.wf(),
            forall|node: Seq<char>| #[trigger]
                coverage.view_map().contains_key(node) ==> coverage.view_map()[node] > 0,
            forall|node: Seq<char>| #[trigger]
                tally_of(coverage, node) == node_coverage(results@.take(i as int), node),
        decreases results@.len() - i,
    {
        let nodes = &results[i].ast_nodes;
        let ghost done = results@.take(i as int);
        proof {
            lemma_nodes_prefix(results@, i as int);
        }
        let mut j: usize = 0;
        while j < nodes.len()
            invariant
                i < results@.len(),
                *nodes == results@[i as int].ast_nodes,
                done == results@.take(i as int),
                j <= nodes@.len(),
                probe_nodes(done) + nodes@.len() <= usize::MAX,
                coverage.wf(),
                forall|node: Seq<char>| #[trigger]
                    coverage.view_map().contains_key(node) ==> coverage.view_map()[node] > 0,
                forall|node: Seq<char>| #[trigger]
                    tally_of(coverage, node) == node_coverage(done, node) + node_occurrences(
                        nodes@.take(j as int),
                        node,
                    ),
            decreases nodes@.len() - j,
        {
            let node = &nodes[j];
            let current = match coverage.get(node.as_str()) {
                Some(count) => *count,
                None => 0,
            };
            proof {
                assert(current == tally_of(coverage, node@));
                lemma_coverage_at_most(done, node@);
                lemma_occurrences_at_most(nodes@.take(j as int), node@);
            }
            let ghost before = coverage;
            coverage.insert(node.clone(), current + 1);
            proof {
                assert(nodes@.take(j + 1).drop_last() =~= nodes@.take(j as int));
                assert forall|n: Seq<char>| #[trigger]
                    tally_of(coverage, n) == node_coverage(done, n) + node_occurrences(
                        nodes@.take(j + 1),
                        n,
                    ) by {
                    assert(tally_of(before, n) == node_coverage(done, n) + node_occurrences(
                        nodes@.take(j as int),
                        n,
                    ));
                }
            }
            j = j + 1;
        }
        proof {
            assert(results@.take(i + 1).drop_last() =~= done);
            assert(nodes@.take(nodes@.len() as int) =~= nodes@);
        }
        i = i + 1;
    }
    proof {
        assert(results@.take(results@.len() as int) =~= results@);
        assert forall|node: Seq<char>| #[trigger]
            coverage.view_map().contains_key(node) <==> node_coverage(results@, node) > 0 by {
            assert(tally_of(coverage, node) == node_coverage(results@, node));
        }
    }
    coverage
}

/// Assemble the catalog report: every status counted, even when no probe
/// has it; every node tallied over all probes; each result filed under its
/// probe id.
pub fn build_behavioral_report(results: Vec<ProbeResult>) -> (report: BehavioralReport)
    requires
        probe_nodes(results@) <= usize::MAX,
    ensures
        is_behavioral_report(report, results@),
{
    let count = results.len();
    let summary = probe_summary(&results);
    let ast_node_coverage = node_coverage_tally(&results);
    let ghost all = results@;
    let mut rest = results;
    let mut features: TextMap<ProbeResult> = TextMap::new();
    let mut i: usize = 0;
    assert(all.len() == count);
    assert(all.skip(0) =~= all);
    assert(features.view_map() =~= features_of(all.take(0)));
    while rest.len() > 0
        invariant
            i + rest@.len() == all.len(),
            all.len() <= usize::MAX,
            rest@ == all.skip(i as int),
            features.wf(),
            features.view_map() == features_of(all.take(i as int)),
        decreases rest@.len(),
    {
        let result = rest.remove(0);
        proof {
            assert(all.take(i + 1).drop_last() =~= all.take(i as int));
            assert(all.take(i + 1).last() == all[i as int]);
            assert(rest@ =~= all.skip(i + 1));
        }
        let key = result.id.clone();
        features.insert(key, result);
        i = i + 1;
    }
    assert(all.take(i as int) =~= all);
    BehavioralReport {
        probe_schema_version: PROBE_SCHEMA_VERSION,
        summary,
        ast_node_coverage,
        features,
    }
}


proof fn lemma_probe_nodes_grow(results: Seq<ProbeResult>, n: int)
    requires
        0 <= n <= results.len(),
    ensures
        probe_nodes(results.take(n)) <= probe_nodes(results),
    decreases results.len() - n,
{
    if n < results.len() {
        lemma_probe_nodes_grow(results, n + 1);
        assert(results.take(n + 1).drop_last() =~= results.take(n));
    } else {
        assert(results.take(n) =~= results);
    }
}

/// Whether the report over `results` can be assembled: their node counts add
/// up within `usize`.
pub fn report_fits(results: &Vec<ProbeResult>) -> (fits: bool)
    ensures
        fits == (probe_nodes(results@) <= usize::MAX),
{
    let mut total: usize = 0;
    let mut i: usize = 0;
    while i < results.len()
        invariant
            i <= results@.len(),
            total == probe_nodes(results@.take(i as int)),
        decreases results@.len() - i,
    {
        assert(results@.take(i + 1).drop_last() =~= results@.take(i as int));
        let count = results[i].ast_nodes.len();
        if count > usize::MAX - total {
            proof {
                lemma_probe_nodes_grow(results@, i + 1);
            }
            return false;
        }
        total = total + count;
        i = i + 1;
    }
    assert(results@.take(results@.len() as int) =~= results@);
    true
}


/// The counts of all nine statuses added up.
pub open spec fn probe_status_total(results: Seq<ProbeResult>) -> nat {
    probe_status_count(results, ProbeStatus::Supported) + probe_status_count(results, ProbeStatus::UnsupportedParse)
        + probe_status_count(results, ProbeStatus::UnsupportedTypeCheck) + probe_status_count(
        results,
        ProbeStatus::UnsupportedRuntime,
    ) + probe_status_count(results, ProbeStatus::SemanticMismatch) + probe_status_count(results, ProbeStatus::Crash)
        + probe_status_count(results, ProbeStatus::Timeout) + probe_status_count(results, ProbeStatus::InvalidProbe)
        + probe_status_count(results, ProbeStatus::UnknownError)
}

/// Every catalog probe is counted under exactly one status: the counts of a
/// catalog report's summary add up to the number of probes.
pub proof fn lemma_probe_counts_partition(results: Seq<ProbeResult>)
    ensures
        probe_status_total(results) == results.len(),
    decreases results.len(),
{
    if results.len() > 0 {
        lemma_probe_counts_partition(results.drop_last());
    }
}

/// A catalog probe that Monty refuses because a module cannot be imported is
/// a runtime gap: its status is `UnsupportedRuntime` and it is recorded as
/// `MontyRuntimeError` with the error's type and message.
pub proof fn lemma_catalog_missing_import(
    outcome: Result<MontyResponse, WorkerFailure>,
    actual: JsonValue,
    expected: JsonValue,
)
    requires
        outcome matches Ok(MontyResponse::CompileError { error_type, error_message }) && (error_type@
            == "ImportError"@ || error_type@ == "ModuleNotFoundError"@) && !crate::discovery::reports_parse_gap(
            error_type@,
            error_message@,
        ),
    ensures
        baseline_status(outcome, actual, expected) == ProbeStatus::UnsupportedRuntime,
        outcome matches Ok(MontyResponse::CompileError { error_type, error_message }) ==> baseline_error(outcome)
            == (Some("MontyRuntimeError"@), Some(
            if error_message@.len() == 0 {
                error_type@
            } else {
                error_type@ + ": "@ + error_message@
            },
        )),
{
}

/// Whatever Monty raises at run time, a catalog probe is a runtime gap.
pub proof fn lemma_catalog_runtime_error(
    outcome: Result<MontyResponse, WorkerFailure>,
    actual: JsonValue,
    expected: JsonValue,
)
    requires
        outcome matches Ok(MontyResponse::RuntimeError { .. }),
    ensures
        baseline_status(outcome, actual, expected) == ProbeStatus::UnsupportedRuntime,
        baseline_error(outcome).0 == Some("MontyRuntimeError"@),
{
}

} // verus!
