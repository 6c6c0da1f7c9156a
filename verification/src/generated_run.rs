//! One generated discovery run as a state machine: the application asks it for
//! the next seed, performs the worker requests it names, and hands back what
//! the workers answered. The run decides when to minimize, when to stop, and
//! assembles the three reports.

use vstd::prelude::*;

use crate::discovery::{
    build_generated_report, build_minimization_report, ends_run, minimization_subject,
    result_fingerprint, stops_run, total_nodes, DiscoverError, GeneratedProbeConfig,
    GeneratedProbeResult, GeneratedReport, MinimizationConfig, MinimizationReport,
    MinimizationSubject, MinimizedFailure, config_problem, is_generated_report,
    is_minimization_report,
};
use crate::promotion::{
    build_promotion_report, hash_prefixes_cut, is_promotion_report, kept_hash_bytes, promotable, PromotionReport,
};
use crate::discovery::MinimizationOutcome;
use vstd::string::StringSliceAdditionalSpecFns;
use vstd::utf8::is_char_boundary;
use crate::text::text_option;

verus! {

/// The three reports of one generated discovery run.
#[derive(Debug, Clone, PartialEq, Eq)]
pub struct GeneratedDiscoveryReport {
    pub generated_corpus: GeneratedReport,
    pub minimized_failures: MinimizationReport,
    pub promotion_candidates: PromotionReport,
}

/// How many results carry a failure fingerprint, and so could be minimized.
pub open spec fn eligible_count(results: Seq<GeneratedProbeResult>) -> nat
    decreases results.len(),
{
    if results.len() == 0 {
        0
    } else {
        eligible_count(results.drop_last()) + if result_fingerprint(results.last()) is Some {
            1nat
        } else {
            0nat
        }
    }
}

/// The node count of a longer prefix is no smaller.
proof fn lemma_nodes_grow(results: Seq<GeneratedProbeResult>, n: int)
    requires
        0 <= n <= results.len(),
    ensures
        total_nodes(results.take(n)) <= total_nodes(results),
    decreases results.len() - n,
{
    if n < results.len() {
        lemma_nodes_grow(results, n + 1);
        assert(results.take(n + 1).drop_last() =~= results.take(n));
    } else {
        assert(results.take(n) =~= results);
    }
}

proof fn lemma_eligible_bounded(results: Seq<GeneratedProbeResult>)
    ensures
        eligible_count(results) <= results.len(),
    decreases results.len(),
{
    if results.len() > 0 {
        lemma_eligible_bounded(results.drop_last());
    }
}

fn count_eligible(results: &Vec<GeneratedProbeResult>) -> (count: usize)
    ensures
        count == eligible_count(results@),
{
    let mut count: usize = 0;
    let mut i: usize = 0;
    while i < results.len()
        invariant
            i <= results@.len(),
            count == eligible_count(results@.take(i as int)),
        decreases results@.len() - i,
    {
        proof {
            assert(results@.take(i + 1).drop_last() =~= results@.take(i as int));
            lemma_eligible_bounded(results@.take(i as int));
        }
        if crate::discovery::generated_result_fingerprint(&results[i]).is_some() {
            count = count + 1;
        }
        i = i + 1;
    }
    assert(results@.take(results@.len() as int) =~= results@);
    count
}

/// A generated discovery run in progress.
pub struct GeneratedRun {
    config: GeneratedProbeConfig,
    minimization: MinimizationConfig,
    next: u64,
    results: Vec<GeneratedProbeResult>,
    minimized: Vec<MinimizedFailure>,
    stopped: bool,
}

impl GeneratedRun {
    pub closed spec fn settings(&self) -> GeneratedProbeConfig {
        self.config
    }

    pub closed spec fn minimizer_settings(&self) -> MinimizationConfig {
        self.minimization
    }

    /// The seed the run asks for next, unless it is over.
    pub closed spec fn cursor(&self) -> u64 {
        self.next
    }

    pub closed spec fn recorded(&self) -> Seq<GeneratedProbeResult> {
        self.results@
    }

    pub closed spec fn minimized_records(&self) -> Seq<MinimizedFailure> {
        self.minimized@
    }

    /// A worker failure ended the run early.
    pub closed spec fn halted(&self) -> bool {
        self.stopped
    }

    /// The seed just past the run's range.
    pub open spec fn end(&self) -> int {
        self.settings().seed_start + self.settings().seed_count
    }

    /// Each recorded result carries the seed of its place in the run: the
    /// first the range's start, each next one more.
    pub open spec fn seeds_in_order(&self) -> bool {
        forall|i: int|
            0 <= i < self.recorded().len() ==> #[trigger] self.recorded()[i].seed == self.settings().seed_start + i
    }

    /// A run has recorded one result for every seed from the range's start up
    /// to its cursor.
    pub proof fn lemma_recorded_up_to_cursor(&self)
        requires
            self.wf(),
        ensures
            self.recorded().len() == self.cursor() - self.settings().seed_start,
            self.settings().seed_start <= self.cursor() <= self.end(),
    {
    }

    pub closed spec fn wf(&self) -> bool {
        &&& config_problem(self.config) is None
        &&& self.config.seed_start <= self.next <= self.config.seed_start + self.config.seed_count
        &&& self.results@.len() == self.next - self.config.seed_start
    }

    /// Begin a run after checking both configurations.
    pub fn start(config: GeneratedProbeConfig, minimization: MinimizationConfig) -> (run: Result<
        GeneratedRun,
        DiscoverError,
    >)
        ensures
            run is Ok <==> config_problem(config) is None && !(minimization.enabled
                && minimization.max_checks == 0),
            run matches Err(error) ==> error matches DiscoverError::InvalidConfig(message) && message@
                == match config_problem(config) {
                Some(problem) => problem,
                None => "minimizer max_checks must be positive when enabled"@,
            },
            run matches Ok(r) ==> r.wf() && r.settings() == config && r.minimizer_settings()
                == minimization && r.cursor() == config.seed_start && r.recorded().len() == 0
                && r.minimized_records().len() == 0 && !r.halted() && r.seeds_in_order(),
    {
        match config.validate() {
            Ok(()) => {},
            Err(error) => return Err(error),
        }
        match minimization.validate() {
            Ok(()) => {},
            Err(error) => return Err(error),
        }
        let next = config.seed_start;
        Ok(
            GeneratedRun {
                config,
                minimization,
                next,
                results: Vec::new(),
                minimized: Vec::new(),
                stopped: false,
            },
        )
    }

    /// The seed to generate next; `None` once the range is done or a worker failed.
    pub fn next_seed(&self) -> (seed: Option<u64>)
        requires
            self.wf(),
        ensures
            seed is Some <==> !self.halted() && self.cursor() < self.end(),
            seed matches Some(s) ==> s == self.cursor(),
    {
        let end = self.config.seed_start + self.config.seed_count;
        if self.stopped || self.next >= end {
            None
        } else {
            Some(self.next)
        }
    }

    /// The failure the minimizer should work on before `result` is recorded, if any.
    pub fn minimization_request(&self, result: &GeneratedProbeResult) -> (subject: Option<
        MinimizationSubject,
    >)
        ensures
            !self.minimizer_settings().enabled ==> subject is None,
            self.minimizer_settings().enabled ==> (subject is Some <==> (result_fingerprint(
                *result,
            ) is Some && result.source is Some && result.source_sha256 is Some)),
    {
        if self.minimization.enabled {
            minimization_subject(result)
        } else {
            None
        }
    }

    /// Keep the record of a minimization attempt.
    pub fn record_minimized(&mut self, failure: MinimizedFailure)
        ensures
            final(self).minimized_records() == old(self).minimized_records().push(failure),
            final(self).recorded() == old(self).recorded(),
            final(self).cursor() == old(self).cursor(),
            final(self).halted() == old(self).halted(),
            final(self).settings() == old(self).settings(),
            final(self).minimizer_settings() == old(self).minimizer_settings(),
            old(self).wf() ==> final(self).wf(),
    {
        self.minimized.push(failure);
    }

    /// Record the result for the current seed; a failed worker halts the run.
    pub fn record_result(&mut self, result: GeneratedProbeResult)
        requires
            old(self).wf(),
            !old(self).halted(),
            old(self).cursor() < old(self).end(),
        ensures
            final(self).wf(),
            final(self).recorded() == old(self).recorded().push(result),
            final(self).cursor() == old(self).cursor() + 1,
            final(self).halted() == stops_run(result),
            old(self).seeds_in_order() && result.seed == old(self).cursor() ==> final(self).seeds_in_order(),
            final(self).minimized_records() == old(self).minimized_records(),
            final(self).settings() == old(self).settings(),
            final(self).minimizer_settings() == old(self).minimizer_settings(),
    {
        let stop = ends_run(&result);
        let ghost before = self.results@;
        self.results.push(result);
        assert(forall|i: int| 0 <= i < before.len() ==> self.results@[i] == before[i]);
        self.next = self.next + 1;
        self.stopped = stop;
    }

    /// Whether the reports can be assembled: the node counts of all results
    /// add up within `usize`, and every promotable failure's hash can be cut
    /// where its candidate id ends.
    pub fn finishable(&self) -> (ready: bool)
        ensures
            ready == (total_nodes(self.recorded()) <= usize::MAX && hash_prefixes_cut(self.minimized_records())),
    {
        let mut total: usize = 0;
        let mut i: usize = 0;
        while i < self.results.len()
            invariant
                i <= self.results@.len(),
                total == total_nodes(self.results@.take(i as int)),
            decreases self.results@.len() - i,
        {
            assert(self.results@.take(i + 1).drop_last() =~= self.results@.take(i as int));
            let count = self.results[i].ast_nodes.len();
            if count > usize::MAX - total {
                proof {
                    lemma_nodes_grow(self.results@, i as int + 1);
                }
                return false;
            }
            total = total + count;
            i = i + 1;
        }
        assert(self.results@.take(self.results@.len() as int) =~= self.results@);
        let mut k: usize = 0;
        while k < self.minimized.len()
            invariant
                k <= self.minimized@.len(),
                forall|j: int|
                    0 <= j < k && promotable(#[trigger] self.minimized@[j]) ==> is_char_boundary(
                        crate::text::utf8(crate::promotion::failure_key(self.minimized@[j]).hash),
                        kept_hash_bytes(crate::promotion::failure_key(self.minimized@[j]).hash),
                    ),
            decreases self.minimized@.len() - k,
        {
            let failure = &self.minimized[k];
            if failure.outcome == MinimizationOutcome::Minimized && failure.minimized_source.is_some()
                && failure.minimized_ast_node_count.is_some() {
                if let Some(hash) = &failure.minimized_source_sha256 {
                    let length = hash.as_str().as_bytes().len();
                    let kept = if length < 16 {
                        length
                    } else {
                        16
                    };
                    if !crate::scanner::char_boundary_at(hash.as_str(), kept) {
                        assert(promotable(self.minimized@[k as int]));
                        return false;
                    }
                }
            }
            k = k + 1;
        }
        true
    }

    /// Assemble the reports of the run.
    pub fn finish(self, generator_version: Option<String>, minimizer_version: Option<String>) -> (report:
        GeneratedDiscoveryReport)
        requires
            total_nodes(self.recorded()) <= usize::MAX,
            hash_prefixes_cut(self.minimized_records()),
        ensures
            is_generated_report(
                report.generated_corpus,
                self.settings(),
                text_option(generator_version),
                self.recorded(),
            ),
            is_minimization_report(
                report.minimized_failures,
                self.minimizer_settings(),
                text_option(minimizer_version),
                eligible_count(self.recorded()) as int,
                self.minimized_records(),
            ),
            is_promotion_report(report.promotion_candidates, self.minimized_records()),
    {
        let GeneratedRun { config, minimization, results, minimized, .. } = self;
        let eligible = count_eligible(&results);
        let minimized_failures = build_minimization_report(
            minimization,
            minimizer_version,
            eligible,
            minimized,
        );
        let promotion_candidates = build_promotion_report(&minimized_failures);
        GeneratedDiscoveryReport {
            generated_corpus: build_generated_report(config, generator_version, results),
            minimized_failures,
            promotion_candidates,
        }
    }
}

} // verus!
