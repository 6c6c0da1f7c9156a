//! Promotion of minimized failures into review candidates: one candidate per
//! failure kind and minimized program, in ascending order of that key.

use vstd::prelude::*;
use vstd::string::StringSliceAdditionalSpecFns;
use vstd::utf8::*;

use crate::discovery::{
    position_of, status_position, GeneratedProbeStatus, MinimizationOutcome, MinimizedFailure,
    PROMOTION_SCHEMA_VERSION,
};
use crate::ordered::{
    compare_text, lemma_bytes_lt_asym, lemma_bytes_lt_irreflexive, lemma_bytes_lt_total,
    lemma_bytes_lt_trans, text_lt,
};
use crate::discovery::MinimizationReport;
use crate::text::{concat_str, lemma_utf8_concat, lemma_utf8_injective, str_range, utf8};

verus! {

broadcast use vstd::utf8::encode_utf8_valid_utf8;

/// A minimized failure proposed for review as a new catalog probe.
#[derive(Debug, Clone, PartialEq, Eq)]
pub struct PromotionCandidate {
    pub id: String,
    pub status: GeneratedProbeStatus,
    pub error_type: String,
    pub error_message: String,
    pub source: String,
    pub source_sha256: String,
    pub ast_nodes: Vec<String>,
    pub ast_node_count: usize,
    pub seeds: Vec<u64>,
    pub occurrences: usize,
    pub disposition: &'static str,
}

/// The review candidates of a run.
#[derive(Debug, Clone, PartialEq, Eq)]
pub struct PromotionReport {
    pub schema_version: u64,
    pub policy: &'static str,
    pub candidate_count: usize,
    pub candidates: Vec<PromotionCandidate>,
}

/// What groups failures: status, named error, and the hash of the minimized program.
pub struct FailureKey {
    pub status: GeneratedProbeStatus,
    pub error_type: Seq<char>,
    pub error_message: Seq<char>,
    pub hash: Seq<char>,
}

/// A record that can be promoted: it was minimized and kept its program, hash and size.
pub open spec fn promotable(failure: MinimizedFailure) -> bool {
    &&& failure.outcome == MinimizationOutcome::Minimized
    &&& failure.minimized_source is Some
    &&& failure.minimized_source_sha256 is Some
    &&& failure.minimized_ast_node_count is Some
}

pub open spec fn failure_key(failure: MinimizedFailure) -> FailureKey {
    FailureKey {
        status: failure.original_status,
        error_type: failure.original_error_type@,
        error_message: failure.original_error_message@,
        hash: match failure.minimized_source_sha256 {
            Some(hash) => hash@,
            None => Seq::empty(),
        },
    }
}

pub open spec fn candidate_key(candidate: PromotionCandidate) -> FailureKey {
    FailureKey {
        status: candidate.status,
        error_type: candidate.error_type@,
        error_message: candidate.error_message@,
        hash: candidate.source_sha256@,
    }
}

/// Keys in the order of their fields: status in report order, then texts by their bytes.
pub open spec fn key_lt(a: FailureKey, b: FailureKey) -> bool {
    status_position(a.status) < status_position(b.status) || (a.status == b.status && (text_lt(
        a.error_type,
        b.error_type,
    ) || (a.error_type == b.error_type && (text_lt(a.error_message, b.error_message) || (
    a.error_message == b.error_message && text_lt(a.hash, b.hash))))))
}

/// The seeds of the promotable failures with `key`, in order.
pub open spec fn group_seeds(failures: Seq<MinimizedFailure>, key: FailureKey) -> Seq<u64>
    decreases failures.len(),
{
    if failures.len() == 0 {
        Seq::empty()
    } else {
        let earlier = group_seeds(failures.drop_last(), key);
        if promotable(failures.last()) && failure_key(failures.last()) == key {
            earlier.push(failures.last().seed)
        } else {
            earlier
        }
    }
}

/// The first promotable failure with `key`.
pub open spec fn group_first(failures: Seq<MinimizedFailure>, key: FailureKey) -> Option<
    MinimizedFailure,
>
    decreases failures.len(),
{
    if failures.len() == 0 {
        None
    } else {
        match group_first(failures.drop_last(), key) {
            Some(first) => Some(first),
            None => if promotable(failures.last()) && failure_key(failures.last()) == key {
                Some(failures.last())
            } else {
                None
            },
        }
    }
}

/// The UTF-8 bytes of a candidate id: `generated.`, the status name, `.` and at most
/// sixteen bytes of the program hash.
pub open spec fn candidate_id_bytes(failure: MinimizedFailure) -> Seq<u8> {
    let hash = utf8(failure_key(failure).hash);
    let kept = if hash.len() < 16 {
        hash.len() as int
    } else {
        16
    };
    utf8("generated."@ + failure.original_status.name() + "."@) + hash.take(kept)
}

/// `candidate` stands for the group of `failures` with its key.
pub open spec fn describes(candidate: PromotionCandidate, failures: Seq<MinimizedFailure>) -> bool {
    let key = candidate_key(candidate);
    &&& group_first(failures, key) matches Some(first) && {
        &&& utf8(candidate.id@) == candidate_id_bytes(first)
        &&& first.minimized_source matches Some(source) && candidate.source@ == source@
        &&& candidate.ast_nodes@ == first.minimized_ast_nodes@
        &&& first.minimized_ast_node_count == Some(candidate.ast_node_count)
    }
    &&& candidate.seeds@ == group_seeds(failures, key)
    &&& candidate.occurrences == candidate.seeds@.len()
    &&& candidate.disposition@ == "needs_semantic_probe"@
}

/// The candidates for `failures`: one per group, in ascending key order.
pub open spec fn groups(candidates: Seq<PromotionCandidate>, failures: Seq<MinimizedFailure>) -> bool {
    &&& forall|i: int, j: int|
        0 <= i < j < candidates.len() ==> key_lt(
            candidate_key(#[trigger] candidates[i]),
            candidate_key(#[trigger] candidates[j]),
        )
    &&& forall|i: int| 0 <= i < candidates.len() ==> describes(#[trigger] candidates[i], failures)
    &&& forall|key: FailureKey| #[trigger]
        group_seeds(failures, key).len() > 0 ==> exists|i: int|
            0 <= i < candidates.len() && candidate_key(#[trigger] candidates[i]) == key
}

proof fn lemma_text_lt_facts(a: Seq<char>, b: Seq<char>, c: Seq<char>)
    ensures
        !text_lt(a, a),
        a == b || text_lt(a, b) || text_lt(b, a),
        text_lt(a, b) ==> !text_lt(b, a),
        text_lt(a, b) && text_lt(b, c) ==> text_lt(a, c),
{
    lemma_bytes_lt_irreflexive(utf8(a));
    lemma_bytes_lt_total(utf8(a), utf8(b));
    lemma_utf8_injective(a, b);
    if text_lt(a, b) {
        lemma_bytes_lt_asym(utf8(a), utf8(b));
        if text_lt(b, c) {
            lemma_bytes_lt_trans(utf8(a), utf8(b), utf8(c));
        }
    }
}

proof fn lemma_key_irreflexive(a: FailureKey)
    ensures
        !key_lt(a, a),
{
    lemma_text_lt_facts(a.error_type, a.error_type, a.error_type);
    lemma_text_lt_facts(a.error_message, a.error_message, a.error_message);
    lemma_text_lt_facts(a.hash, a.hash, a.hash);
}

proof fn lemma_key_trans(a: FailureKey, b: FailureKey, c: FailureKey)
    requires
        key_lt(a, b),
        key_lt(b, c),
    ensures
        key_lt(a, c),
{
    lemma_text_lt_facts(a.error_type, b.error_type, c.error_type);
    lemma_text_lt_facts(a.error_message, b.error_message, c.error_message);
    lemma_text_lt_facts(a.hash, b.hash, c.hash);
}

proof fn lemma_key_total(a: FailureKey, b: FailureKey)
    ensures
        a == b || key_lt(a, b) || key_lt(b, a),
{
    lemma_text_lt_facts(a.error_type, b.error_type, b.error_type);
    lemma_text_lt_facts(a.error_message, b.error_message, b.error_message);
    lemma_text_lt_facts(a.hash, b.hash, b.hash);
    if status_position(a.status) == status_position(b.status) {
        assert(a.status == b.status);
    }
}

proof fn lemma_key_asym(a: FailureKey, b: FailureKey)
    requires
        key_lt(a, b),
    ensures
        !key_lt(b, a),
{
    if key_lt(b, a) {
        lemma_key_trans(a, b, a);
        lemma_key_irreflexive(a);
    }
}

proof fn lemma_group_first_nonempty(failures: Seq<MinimizedFailure>, key: FailureKey)
    ensures
        group_first(failures, key) is Some <==> group_seeds(failures, key).len() > 0,
        group_first(failures, key) matches Some(first) ==> promotable(first) && failure_key(first)
            == key,
        group_seeds(failures, key).len() <= failures.len(),
    decreases failures.len(),
{
    if failures.len() > 0 {
        lemma_group_first_nonempty(failures.drop_last(), key);
    }
}

/// Three-way comparison of a candidate's key with a failure's key: `-1`, `0` or `1`.
fn compare_keys(candidate: &PromotionCandidate, failure: &MinimizedFailure, hash: &String) -> (order:
    i8)
    requires
        failure.minimized_source_sha256 == Some(*hash),
    ensures
        order == 0 <==> candidate_key(*candidate) == failure_key(*failure),
        order < 0 <==> key_lt(candidate_key(*candidate), failure_key(*failure)),
        order > 0 <==> key_lt(failure_key(*failure), candidate_key(*candidate)),
{
    let ghost a = candidate_key(*candidate);
    let ghost b = failure_key(*failure);
    proof {
        lemma_key_irreflexive(a);
        lemma_key_irreflexive(b);
        lemma_text_lt_facts(a.error_type, b.error_type, b.error_type);
        lemma_text_lt_facts(b.error_type, a.error_type, a.error_type);
        lemma_text_lt_facts(a.error_message, b.error_message, b.error_message);
        lemma_text_lt_facts(b.error_message, a.error_message, a.error_message);
        lemma_text_lt_facts(a.hash, b.hash, b.hash);
        lemma_text_lt_facts(b.hash, a.hash, a.hash);
    }
    let left = position_of(candidate.status);
    let right = position_of(failure.original_status);
    if left < right {
        return -1;
    }
    if left > right {
        return 1;
    }
    let order = compare_text(candidate.error_type.as_str(), failure.original_error_type.as_str());
    if order != 0 {
        return order;
    }
    let order = compare_text(
        candidate.error_message.as_str(),
        failure.original_error_message.as_str(),
    );
    if order != 0 {
        return order;
    }
    compare_text(candidate.source_sha256.as_str(), hash.as_str())
}

proof fn lemma_group_step(done: Seq<MinimizedFailure>, failure: MinimizedFailure, key: FailureKey)
    ensures
        group_seeds(done.push(failure), key) == if promotable(failure) && failure_key(failure)
            == key {
            group_seeds(done, key).push(failure.seed)
        } else {
            group_seeds(done, key)
        },
        group_first(done.push(failure), key) == match group_first(done, key) {
            Some(first) => Some(first),
            None => if promotable(failure) && failure_key(failure) == key {
                Some(failure)
            } else {
                None
            },
        },
{
    assert(done.push(failure).drop_last() =~= done);
}

proof fn lemma_step_skip(
    candidates: Seq<PromotionCandidate>,
    done: Seq<MinimizedFailure>,
    failure: MinimizedFailure,
)
    requires
        groups(candidates, done),
        !promotable(failure),
    ensures
        groups(candidates, done.push(failure)),
{
    let next = done.push(failure);
    assert forall|i: int| 0 <= i < candidates.len() implies describes(
        #[trigger] candidates[i],
        next,
    ) by {
        lemma_group_step(done, failure, candidate_key(candidates[i]));
    }
    assert forall|key: FailureKey| #[trigger]
        group_seeds(next, key).len() > 0 implies exists|i: int|
            0 <= i < candidates.len() && candidate_key(#[trigger] candidates[i]) == key by {
        lemma_group_step(done, failure, key);
    }
}

proof fn lemma_step_found(
    before: Seq<PromotionCandidate>,
    after: Seq<PromotionCandidate>,
    done: Seq<MinimizedFailure>,
    failure: MinimizedFailure,
    p: int,
)
    requires
        groups(before, done),
        promotable(failure),
        0 <= p < before.len(),
        candidate_key(before[p]) == failure_key(failure),
        after.len() == before.len(),
        forall|j: int| 0 <= j < before.len() && j != p ==> after[j] == before[j],
        candidate_key(after[p]) == candidate_key(before[p]),
        after[p].id@ == before[p].id@,
        after[p].source@ == before[p].source@,
        after[p].ast_nodes@ == before[p].ast_nodes@,
        after[p].ast_node_count == before[p].ast_node_count,
        after[p].disposition@ == before[p].disposition@,
        after[p].seeds@ == before[p].seeds@.push(failure.seed),
        after[p].occurrences == before[p].occurrences + 1,
    ensures
        groups(after, done.push(failure)),
{
    let next = done.push(failure);
    assert forall|i: int, j: int| 0 <= i < j < after.len() implies key_lt(
        candidate_key(#[trigger] after[i]),
        candidate_key(#[trigger] after[j]),
    ) by {
        assert(key_lt(candidate_key(before[i]), candidate_key(before[j])));
    }
    assert forall|i: int| 0 <= i < after.len() implies describes(#[trigger] after[i], next) by {
        let key = candidate_key(after[i]);
        lemma_group_step(done, failure, key);
        assert(describes(before[i], done));
        if i != p {
            assert(key_lt(candidate_key(before[i]), candidate_key(before[p])) || key_lt(
                candidate_key(before[p]),
                candidate_key(before[i]),
            ));
            if key == failure_key(failure) {
                lemma_key_irreflexive(key);
            }
        }
    }
    assert forall|key: FailureKey| #[trigger]
        group_seeds(next, key).len() > 0 implies exists|i: int|
            0 <= i < after.len() && candidate_key(#[trigger] after[i]) == key by {
        lemma_group_step(done, failure, key);
        if key == failure_key(failure) {
            assert(candidate_key(after[p]) == key);
        } else {
            let i = choose|i: int| 0 <= i < before.len() && candidate_key(before[i]) == key;
            assert(candidate_key(after[i]) == key);
        }
    }
}

proof fn lemma_new_key_absent(
    before: Seq<PromotionCandidate>,
    done: Seq<MinimizedFailure>,
    key: FailureKey,
    p: int,
)
    requires
        groups(before, done),
        0 <= p <= before.len(),
        forall|j: int| 0 <= j < p ==> key_lt(candidate_key(#[trigger] before[j]), key),
        p < before.len() ==> key_lt(key, candidate_key(before[p])),
    ensures
        forall|j: int| 0 <= j < before.len() ==> candidate_key(#[trigger] before[j]) != key,
        group_seeds(done, key).len() == 0,
        group_first(done, key) is None,
{
    assert forall|j: int| 0 <= j < before.len() implies candidate_key(#[trigger] before[j]) != key by {
        if j < p {
            lemma_key_irreflexive(key);
        } else {
            if j > p {
                lemma_key_trans(key, candidate_key(before[p]), candidate_key(before[j]));
            }
            lemma_key_irreflexive(key);
        }
    }
    if group_seeds(done, key).len() > 0 {
        let i = choose|i: int| 0 <= i < before.len() && candidate_key(before[i]) == key;
        assert(candidate_key(before[i]) != key);
    }
    lemma_group_first_nonempty(done, key);
}

proof fn lemma_new_sorted(before: Seq<PromotionCandidate>, key: FailureKey, p: int, added: PromotionCandidate)
    requires
        forall|i: int, j: int|
            0 <= i < j < before.len() ==> key_lt(
                candidate_key(#[trigger] before[i]),
                candidate_key(#[trigger] before[j]),
            ),
        0 <= p <= before.len(),
        forall|j: int| 0 <= j < p ==> key_lt(candidate_key(#[trigger] before[j]), key),
        p < before.len() ==> key_lt(key, candidate_key(before[p])),
        candidate_key(added) == key,
    ensures
        forall|i: int, j: int|
            0 <= i < j < before.insert(p, added).len() ==> key_lt(
                candidate_key(#[trigger] before.insert(p, added)[i]),
                candidate_key(#[trigger] before.insert(p, added)[j]),
            ),
{
    let after = before.insert(p, added);
    assert forall|i: int, j: int| 0 <= i < j < after.len() implies key_lt(
        candidate_key(#[trigger] after[i]),
        candidate_key(#[trigger] after[j]),
    ) by {
        if j < p {
            assert(key_lt(candidate_key(before[i]), candidate_key(before[j])));
        } else if j == p {
        } else if i < p {
            assert(key_lt(candidate_key(before[i]), key));
            if j - 1 > p {
                assert(key_lt(candidate_key(before[p]), candidate_key(before[j - 1])));
                lemma_key_trans(key, candidate_key(before[p]), candidate_key(before[j - 1]));
            }
            lemma_key_trans(candidate_key(before[i]), key, candidate_key(before[j - 1]));
        } else if i == p {
            if j - 1 > p {
                assert(key_lt(candidate_key(before[p]), candidate_key(before[j - 1])));
                lemma_key_trans(key, candidate_key(before[p]), candidate_key(before[j - 1]));
            }
        } else {
            assert(key_lt(candidate_key(before[i - 1]), candidate_key(before[j - 1])));
        }
    }
}

proof fn lemma_step_new(
    before: Seq<PromotionCandidate>,
    done: Seq<MinimizedFailure>,
    failure: MinimizedFailure,
    p: int,
    added: PromotionCandidate,
)
    requires
        groups(before, done),
        promotable(failure),
        0 <= p <= before.len(),
        forall|j: int| 0 <= j < p ==> key_lt(candidate_key(#[trigger] before[j]), failure_key(failure)),
        p < before.len() ==> key_lt(failure_key(failure), candidate_key(before[p])),
        candidate_key(added) == failure_key(failure),
        utf8(added.id@) == candidate_id_bytes(failure),
        failure.minimized_source matches Some(source) && added.source@ == source@,
        added.ast_nodes@ == failure.minimized_ast_nodes@,
        failure.minimized_ast_node_count == Some(added.ast_node_count),
        added.seeds@ == seq![failure.seed],
        added.occurrences == 1,
        added.disposition@ == "needs_semantic_probe"@,
    ensures
        groups(before.insert(p, added), done.push(failure)),
{
    let next = done.push(failure);
    let after = before.insert(p, added);
    let key = failure_key(failure);
    lemma_new_key_absent(before, done, key, p);
    lemma_new_sorted(before, key, p, added);
    assert(describes(added, next)) by {
        lemma_group_step(done, failure, key);
        assert(group_seeds(done, key) =~= Seq::<u64>::empty());
        assert(added.seeds@ =~= group_seeds(next, key));
    }
    assert forall|i: int| 0 <= i < after.len() implies describes(#[trigger] after[i], next) by {
        if i != p {
            let j = if i < p {
                i
            } else {
                i - 1
            };
            assert(after[i] == before[j]);
            assert(describes(before[j], done));
            lemma_group_step(done, failure, candidate_key(before[j]));
        }
    }
    assert forall|k: FailureKey| #[trigger]
        group_seeds(next, k).len() > 0 implies exists|i: int|
            0 <= i < after.len() && candidate_key(#[trigger] after[i]) == k by {
        lemma_group_step(done, failure, k);
        if k == key {
            assert(candidate_key(after[p]) == k);
        } else {
            let i = choose|i: int| 0 <= i < before.len() && candidate_key(before[i]) == k;
            if i < p {
                assert(after[i] == before[i]);
            } else {
                assert(after[i + 1] == before[i]);
            }
        }
    }
}

/// The number of hash bytes a candidate id keeps.
pub open spec fn kept_hash_bytes(hash: Seq<char>) -> int {
    if utf8(hash).len() < 16 {
        utf8(hash).len() as int
    } else {
        16
    }
}

/// Every promotable failure's hash can be cut after the bytes its candidate id keeps.
pub open spec fn hash_prefixes_cut(failures: Seq<MinimizedFailure>) -> bool {
    forall|k: int|
        0 <= k < failures.len() && promotable(#[trigger] failures[k]) ==> is_char_boundary(
            utf8(failure_key(failures[k]).hash),
            kept_hash_bytes(failure_key(failures[k]).hash),
        )
}

fn candidate_id(status: GeneratedProbeStatus, hash: &String) -> (id: String)
    requires
        is_char_boundary(utf8(hash@), kept_hash_bytes(hash@)),
    ensures
        utf8(id@) == utf8("generated."@ + status.name() + "."@) + utf8(hash@).take(
            kept_hash_bytes(hash@),
        ),
{
    let head = concat_str("generated.", status.as_str());
    let head = concat_str(head.as_str(), ".");
    let length = hash.as_str().as_bytes().len();
    let kept = if length < 16 {
        length
    } else {
        16
    };
    let prefix = str_range(hash.as_str(), 0, kept);
    let id = concat_str(head.as_str(), prefix);
    proof {
        lemma_utf8_concat(head@, prefix@);
        assert(utf8(hash@).subrange(0, kept as int) =~= utf8(hash@).take(kept as int));
    }
    id
}

fn first_seed(seed: u64) -> (seeds: Vec<u64>)
    ensures
        seeds@ == seq![seed],
{
    let mut seeds: Vec<u64> = Vec::new();
    seeds.push(seed);
    assert(seeds@ =~= seq![seed]);
    seeds
}

/// `promotion` holds one review candidate per group of `failures`.
pub open spec fn is_promotion_report(promotion: PromotionReport, failures: Seq<MinimizedFailure>) -> bool {
    &&& promotion.schema_version == PROMOTION_SCHEMA_VERSION
    &&& promotion.policy@
        == "minimized failures are review candidates, never automatic capabilities"@
    &&& promotion.candidate_count == promotion.candidates@.len()
    &&& groups(promotion.candidates@, failures)
}

/// Group the minimized failures of a report into review candidates.
pub fn build_promotion_report(report: &MinimizationReport) -> (promotion: PromotionReport)
    requires
        hash_prefixes_cut(report.results@),
    ensures
        is_promotion_report(promotion, report.results@),
{
    let failures = &report.results;
    let mut candidates: Vec<PromotionCandidate> = Vec::new();
    let mut i: usize = 0;
    while i < failures.len()
        invariant
            i <= failures@.len(),
            failures@ == report.results@,
            hash_prefixes_cut(failures@),
            groups(candidates@, failures@.take(i as int)),
        decreases failures@.len() - i,
    {
        let failure = &failures[i];
        let ghost done = failures@.take(i as int);
        let ghost before = candidates@;
        proof {
            assert(failures@.take(i + 1) =~= done.push(*failure));
        }
        let mut handled = false;
        if failure.outcome == MinimizationOutcome::Minimized {
            match (&failure.minimized_source, &failure.minimized_source_sha256, failure.minimized_ast_node_count) {
                (Some(source), Some(hash), Some(count)) => {
                    let mut p: usize = 0;
                    while p < candidates.len() && compare_keys(&candidates[p], failure, hash) < 0
                        invariant
                            p <= candidates@.len(),
                            candidates@ == before,
                            failure.minimized_source_sha256 == Some(*hash),
                            forall|j: int| 0 <= j < p ==> key_lt(
                                candidate_key(#[trigger] candidates@[j]),
                                failure_key(*failure),
                            ),
                        decreases candidates@.len() - p,
                    {
                        p = p + 1;
                    }
                    if p < candidates.len() && compare_keys(&candidates[p], failure, hash) == 0 {
                        proof {
                            assert(describes(before[p as int], done));
                            lemma_group_first_nonempty(done, candidate_key(before[p as int]));
                        }
                        let mut found = candidates.remove(p);
                        found.seeds.push(failure.seed);
                        found.occurrences = found.occurrences + 1;
                        candidates.insert(p, found);
                        proof {
                            lemma_step_found(before, candidates@, done, *failure, p as int);
                        }
                    } else {
                        proof {
                            if p < before.len() {
                                lemma_key_total(candidate_key(before[p as int]), failure_key(*failure));
                            }
                            assert(promotable(failures@[i as int]));
                        }
                        let added = PromotionCandidate {
                            id: candidate_id(failure.original_status, hash),
                            status: failure.original_status,
                            error_type: failure.original_error_type.clone(),
                            error_message: failure.original_error_message.clone(),
                            source: source.clone(),
                            source_sha256: hash.clone(),
                            ast_nodes: failure.minimized_ast_nodes.clone(),
                            ast_node_count: count,
                            seeds: first_seed(failure.seed),
                            occurrences: 1,
                            disposition: "needs_semantic_probe",
                        };
                        proof {
                            assert(added.ast_nodes@ =~= failure.minimized_ast_nodes@);
                        }
                        candidates.insert(p, added);
                        proof {
                            lemma_step_new(before, done, *failure, p as int, added);
                        }
                    }
                    handled = true;
                },
                _ => {},
            }
        }
        if !handled {
            proof {
                lemma_step_skip(before, done, *failure);
            }
        }
        i = i + 1;
    }
    assert(failures@.take(failures@.len() as int) =~= failures@);
    let candidate_count = candidates.len();
    PromotionReport {
        schema_version: PROMOTION_SCHEMA_VERSION,
        policy: "minimized failures are review candidates, never automatic capabilities",
        candidate_count,
        candidates,
    }
}

} // verus!
