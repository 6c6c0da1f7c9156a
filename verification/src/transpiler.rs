//! A release-pinned lowering front end with a bounded exact-source cache.

use std::sync::Arc;

use vstd::prelude::*;
use vstd::string::StringSliceAdditionalSpecFns;

use crate::lowering::{LoweringDiagnostic, LoweringError, LoweringOutput};
use crate::manifest::{CapabilityIndex, TargetFingerprint};
use crate::ordered::TextMap;

verus! {

/// Default bound on cached sources.
pub const DEFAULT_MAX_ENTRIES: usize = 256;

/// Default bound on the retained-size estimate, in bytes.
pub const DEFAULT_MAX_BYTES: usize = 33554432;

/// Bounds for the in-memory exact-source transpilation cache. Setting either
/// bound to zero disables caching without changing transpilation results.
#[derive(Debug, Clone, Copy, PartialEq, Eq, Structural)]
pub struct CacheConfig {
    pub max_entries: usize,
    pub max_bytes: usize,
}

impl CacheConfig {
    /// Explicit cache bounds.
    pub fn new(max_entries: usize, max_bytes: usize) -> (config: CacheConfig)
        ensures
            config.max_entries == max_entries,
            config.max_bytes == max_bytes,
    {
        CacheConfig { max_entries, max_bytes }
    }

    /// A configuration that never retains results.
    pub fn disabled() -> (config: CacheConfig)
        ensures
            config.max_entries == 0,
            config.max_bytes == 0,
            !config.enabled(),
    {
        CacheConfig::new(0, 0)
    }

    pub open spec fn enabled(self) -> bool {
        self.max_entries > 0 && self.max_bytes > 0
    }

    /// Whether results are retained at all.
    pub fn is_enabled(self) -> (enabled: bool)
        ensures
            enabled == self.enabled(),
    {
        self.max_entries > 0 && self.max_bytes > 0
    }
}

impl Default for CacheConfig {
    fn default() -> (config: CacheConfig)
        ensures
            config.max_entries == DEFAULT_MAX_ENTRIES,
            config.max_bytes == DEFAULT_MAX_BYTES,
    {
        CacheConfig::new(DEFAULT_MAX_ENTRIES, DEFAULT_MAX_BYTES)
    }
}

/// Cumulative counters plus the current cache size of one `Transpiler`.
#[derive(Debug, Clone, Copy, PartialEq, Eq, Structural)]
pub struct CacheStats {
    pub hits: u64,
    pub misses: u64,
    pub insertions: u64,
    pub evictions: u64,
    pub skipped: u64,
    pub bypasses: u64,
    pub entries: usize,
    pub bytes: usize,
}

/// One retained lowering result.
pub struct CacheEntry {
    pub output: Arc<LoweringOutput>,
    pub last_access: u64,
    pub weight: usize,
}

/// The retained results, keyed by exact source text.
pub struct CacheState {
    entries: TextMap<CacheEntry>,
    bytes: usize,
    clock: u64,
}

/// What an insertion did with a freshly lowered result.
pub enum InsertOutcome {
    Existing(Arc<LoweringOutput>),
    Inserted { output: Arc<LoweringOutput>, evictions: u64 },
    Skipped(Arc<LoweringOutput>),
}

/// `String::capacity`: at least the text's length in bytes. The exact capacity
/// depends on the allocator and is not described.
#[verifier::external_body]
fn string_capacity(text: &String) -> (capacity: usize)
    ensures
        capacity >= crate::text::utf8(text@).len(),
{
    text.capacity()
}

/// `Vec::capacity`: at least the vector's length. The exact capacity depends
/// on the allocator and is not described.
#[verifier::external_body]
fn diagnostics_capacity(diagnostics: &Vec<LoweringDiagnostic>) -> (capacity: usize)
    ensures
        capacity >= diagnostics@.len(),
{
    diagnostics.capacity()
}

/// The sum of the capacities in `caps`.
pub open spec fn capacity_total(caps: Seq<usize>) -> nat
    decreases caps.len(),
{
    if caps.len() == 0 {
        0
    } else {
        capacity_total(caps.drop_last()) + caps.last() as nat
    }
}

proof fn lemma_capacity_prefix(caps: Seq<usize>, k: int)
    requires
        0 <= k <= caps.len(),
    ensures
        capacity_total(caps.take(k)) <= capacity_total(caps),
    decreases caps.len(),
{
    if k < caps.len() {
        assert(caps.drop_last().take(k) =~= caps.take(k));
        lemma_capacity_prefix(caps.drop_last(), k);
    } else {
        assert(caps.take(k) =~= caps);
    }
}

/// The fixed part of every estimate: the key's header, the entry and the
/// result's header.
pub open spec fn fixed_weight() -> nat {
    vstd::layout::size_of::<String>() + vstd::layout::size_of::<CacheEntry>() + vstd::layout::size_of::<
        LoweringOutput,
    >()
}

/// The retained-size estimate of a result from its buffers' capacities: the
/// fixed part, the source's bytes, the code and release-tag capacities, the
/// diagnostics buffer and every diagnostic message's capacity; `None` when the
/// total does not fit in `usize`.
pub open spec fn spec_weight(
    source_len: nat,
    code_cap: nat,
    tag_cap: nat,
    diag_cap: nat,
    message_caps: Seq<usize>,
) -> Option<usize> {
    let total = fixed_weight() + source_len + code_cap + tag_cap + diag_cap * vstd::layout::size_of::<
        LoweringDiagnostic,
    >() + capacity_total(message_caps);
    if total <= usize::MAX {
        Some(total as usize)
    } else {
        None
    }
}

/// Capacities that a result's buffers can have: each at least the length it
/// holds, one per diagnostic message.
pub open spec fn holds_capacities(
    output: LoweringOutput,
    code_cap: usize,
    tag_cap: usize,
    diag_cap: usize,
    message_caps: Seq<usize>,
) -> bool {
    &&& code_cap >= crate::text::utf8(output.code@).len()
    &&& tag_cap >= crate::text::utf8(output.target_tag@).len()
    &&& diag_cap >= output.diagnostics@.len()
    &&& message_caps.len() == output.diagnostics@.len()
    &&& forall|j: int|
        0 <= j < message_caps.len() ==> #[trigger] message_caps[j] >= crate::text::utf8(
            output.diagnostics@[j].message@,
        ).len()
}

/// `weight` is the estimate of `output` for `source` under the capacities its
/// buffers have.
pub open spec fn weighed(weight: Option<usize>, source: Seq<char>, output: LoweringOutput) -> bool {
    exists|code_cap: usize, tag_cap: usize, diag_cap: usize, message_caps: Seq<usize>|
        holds_capacities(output, code_cap, tag_cap, diag_cap, message_caps) && weight == spec_weight(
            crate::text::utf8(source).len(),
            code_cap as nat,
            tag_cap as nat,
            diag_cap as nat,
            message_caps,
        )
}

/// The retained-size estimate from the capacities of a result's buffers, with
/// checked arithmetic.
pub fn weight_from_capacities(
    source_len: usize,
    code_cap: usize,
    tag_cap: usize,
    diag_cap: usize,
    message_caps: &Vec<usize>,
) -> (weight: Option<usize>)
    ensures
        weight == spec_weight(source_len as nat, code_cap as nat, tag_cap as nat, diag_cap as nat, message_caps@),
{
    let ghost dsize = vstd::layout::size_of::<LoweringDiagnostic>();
    let ghost total = fixed_weight() + source_len + code_cap + tag_cap + diag_cap * dsize + capacity_total(
        message_caps@,
    );
    let diagnostic_size = core::mem::size_of::<LoweringDiagnostic>();
    let diagnostics = match diag_cap.checked_mul(diagnostic_size) {
        Some(d) => d,
        None => return None,
    };
    let key_size = core::mem::size_of::<String>();
    let entry_size = core::mem::size_of::<CacheEntry>();
    let output_size = core::mem::size_of::<LoweringOutput>();
    let fixed = match key_size.checked_add(entry_size) {
        Some(f) => match f.checked_add(output_size) {
            Some(f) => f,
            None => return None,
        },
        None => return None,
    };
    let buffers = match source_len.checked_add(code_cap) {
        Some(b) => match b.checked_add(tag_cap) {
            Some(b) => match b.checked_add(diagnostics) {
                Some(b) => b,
                None => return None,
            },
            None => return None,
        },
        None => return None,
    };
    let mut weight = match fixed.checked_add(buffers) {
        Some(w) => w,
        None => return None,
    };
    assert(message_caps@.take(0) =~= Seq::<usize>::empty());
    let mut i: usize = 0;
    while i < message_caps.len()
        invariant
            i <= message_caps@.len(),
            dsize == vstd::layout::size_of::<LoweringDiagnostic>(),
            weight == fixed_weight() + source_len + code_cap + tag_cap + diag_cap * dsize + capacity_total(
                message_caps@.take(i as int),
            ),
            total == fixed_weight() + source_len + code_cap + tag_cap + diag_cap * dsize + capacity_total(
                message_caps@,
            ),
        decreases message_caps@.len() - i,
    {
        assert(message_caps@.take(i + 1).drop_last() =~= message_caps@.take(i as int));
        assert(message_caps@.take(i + 1).last() == message_caps@[i as int]);
        assert(capacity_total(message_caps@.take(i + 1)) == capacity_total(message_caps@.take(i as int))
            + message_caps@[i as int]);
        proof {
            lemma_capacity_prefix(message_caps@, i + 1);
        }
        weight = match weight.checked_add(message_caps[i]) {
            Some(w) => w,
            None => {
                assert(total >= weight + message_caps@[i as int]);
                assert(total > usize::MAX);
                return None;
            },
        };
        i = i + 1;
    }
    assert(message_caps@.take(i as int) =~= message_caps@);
    Some(weight)
}

/// The retained-size estimate of one result, from the capacities its buffers
/// have: source bytes, output buffers, diagnostics and fixed metadata, or
/// `None` when it does not fit in `usize`.
pub fn cache_weight(source: &str, output: &LoweringOutput) -> (weight: Option<usize>)
    ensures
        weighed(weight, source@, *output),
{
    let code_cap = string_capacity(&output.code);
    let tag_cap = string_capacity(&output.target_tag);
    let diag_cap = diagnostics_capacity(&output.diagnostics);
    let mut message_caps: Vec<usize> = Vec::new();
    let mut i: usize = 0;
    while i < output.diagnostics.len()
        invariant
            i <= output.diagnostics@.len(),
            message_caps@.len() == i,
            forall|j: int|
                0 <= j < i ==> #[trigger] message_caps@[j] >= crate::text::utf8(
                    output.diagnostics@[j].message@,
                ).len(),
        decreases output.diagnostics@.len() - i,
    {
        message_caps.push(string_capacity(&output.diagnostics[i].message));
        i = i + 1;
    }
    let weight = weight_from_capacities(source.as_bytes().len(), code_cap, tag_cap, diag_cap, &message_caps);
    assert(holds_capacities(*output, code_cap, tag_cap, diag_cap, message_caps@));
    weight
}

/// An estimate is at least the bytes of the source, the code and the release tag.
pub proof fn lemma_weight_bounds(weight: Option<usize>, source: Seq<char>, output: LoweringOutput)
    requires
        weighed(weight, source, output),
    ensures
        weight matches Some(w) ==> w >= crate::text::utf8(source).len() + crate::text::utf8(output.code@).len()
            + crate::text::utf8(output.target_tag@).len(),
{
}

/// What the cache holds for one source: the shared result, when it was last
/// used, and its retained-size estimate.
pub struct EntryView {
    pub output: LoweringOutput,
    pub access: u64,
    pub weight: usize,
}

/// A retained entry as the cache's view holds it.
pub open spec fn entry_view(entry: CacheEntry) -> EntryView {
    EntryView { output: *entry.output, access: entry.last_access, weight: entry.weight }
}

/// The total of the weights of `entries`.
pub open spec fn weight_total(entries: Seq<CacheEntry>) -> nat
    decreases entries.len(),
{
    if entries.len() == 0 {
        0
    } else {
        weight_total(entries.drop_last()) + entries.last().weight as nat
    }
}

proof fn lemma_weight_concat(a: Seq<CacheEntry>, b: Seq<CacheEntry>)
    ensures
        weight_total(a + b) == weight_total(a) + weight_total(b),
    decreases b.len(),
{
    if b.len() == 0 {
        assert(a + b =~= a);
    } else {
        lemma_weight_concat(a, b.drop_last());
        assert((a + b).drop_last() =~= a + b.drop_last());
    }
}

proof fn lemma_weight_single(e: CacheEntry)
    ensures
        weight_total(seq![e]) == e.weight,
{
    assert(seq![e].drop_last() =~= Seq::<CacheEntry>::empty());
    assert(weight_total(Seq::<CacheEntry>::empty()) == 0);
}

proof fn lemma_weight_insert(s: Seq<CacheEntry>, i: int, e: CacheEntry)
    requires
        0 <= i <= s.len(),
    ensures
        weight_total(s.insert(i, e)) == weight_total(s) + e.weight,
{
    assert(s.insert(i, e) =~= s.take(i) + seq![e] + s.skip(i));
    assert(s =~= s.take(i) + s.skip(i));
    lemma_weight_concat(s.take(i) + seq![e], s.skip(i));
    lemma_weight_concat(s.take(i), seq![e]);
    lemma_weight_concat(s.take(i), s.skip(i));
    lemma_weight_single(e);
}

proof fn lemma_weight_remove(s: Seq<CacheEntry>, i: int)
    requires
        0 <= i < s.len(),
    ensures
        weight_total(s.remove(i)) + s[i].weight == weight_total(s),
{
    assert(s.remove(i).insert(i, s[i]) =~= s);
    lemma_weight_insert(s.remove(i), i, s[i]);
}

proof fn lemma_weight_update(s: Seq<CacheEntry>, i: int, e: CacheEntry)
    requires
        0 <= i < s.len(),
    ensures
        weight_total(s.update(i, e)) + s[i].weight == weight_total(s) + e.weight,
{
    assert(s.update(i, e).remove(i) =~= s.remove(i));
    lemma_weight_remove(s.update(i, e), i);
    lemma_weight_remove(s, i);
}

/// The clock after one more access: one later, saturating at its maximum.
pub open spec fn tick(clock: u64) -> u64 {
    if clock == u64::MAX {
        u64::MAX
    } else {
        (clock + 1) as u64
    }
}

/// `key` is the least recently used entry: its access is the earliest, and
/// among entries last used at the same time it comes first in key order.
pub open spec fn is_lru(entries: Map<Seq<char>, EntryView>, key: Seq<char>) -> bool {
    &&& entries.contains_key(key)
    &&& forall|other: Seq<char>| #[trigger]
        entries.contains_key(other) ==> entries[key].access < entries[other].access || (
        entries[key].access == entries[other].access && (other == key || crate::ordered::text_lt(key, other)))
}

/// The least recently used entry.
pub open spec fn lru_key(entries: Map<Seq<char>, EntryView>) -> Seq<char> {
    choose|key: Seq<char>| is_lru(entries, key)
}

proof fn lemma_lru_unique(entries: Map<Seq<char>, EntryView>, a: Seq<char>, b: Seq<char>)
    requires
        is_lru(entries, a),
        is_lru(entries, b),
    ensures
        a == b,
{
    assert(entries.contains_key(b));
    assert(entries.contains_key(a));
    if a != b {
        crate::ordered::lemma_bytes_lt_asym(crate::text::utf8(a), crate::text::utf8(b));
    }
}

/// `a - b`, or zero when `b` is larger.
pub open spec fn saturating_minus(a: nat, b: nat) -> nat {
    if a >= b {
        (a - b) as nat
    } else {
        0
    }
}

/// `a + b`, or `usize::MAX` when the sum is larger.
pub open spec fn saturating_plus(a: nat, b: nat) -> nat {
    if a + b > usize::MAX {
        usize::MAX as nat
    } else {
        a + b
    }
}

/// Whether a result of `weight` bytes does not fit next to what is retained.
pub open spec fn crowded(entries: Map<Seq<char>, EntryView>, bytes: nat, weight: nat, config: CacheConfig) -> bool {
    entries.dom().len() >= config.max_entries || saturating_plus(bytes, weight) > config.max_bytes
}

/// The retained entries and byte total after evicting least recently used
/// entries until a result of `weight` bytes fits, with how many were evicted.
pub open spec fn make_room(
    entries: Map<Seq<char>, EntryView>,
    bytes: nat,
    weight: nat,
    config: CacheConfig,
) -> (Map<Seq<char>, EntryView>, nat, nat)
    decreases entries.dom().len(),
{
    let key = lru_key(entries);
    if entries.dom().finite() && crowded(entries, bytes, weight, config) && entries.contains_key(key) {
        let w = entries[key].weight;
        let rest = make_room(entries.remove(key), saturating_minus(bytes, w as nat), weight, config);
        (rest.0, rest.1, rest.2 + 1)
    } else {
        (entries, bytes, 0)
    }
}

impl CacheState {
    pub closed spec fn wf(&self) -> bool {
        &&& self.entries.wf()
        &&& self.bytes <= weight_total(self.entries.value_seq())
    }

    /// The retained results by exact source text.
    pub closed spec fn cached(&self) -> Map<Seq<char>, LoweringOutput> {
        self.entries.view_map().map_values(|entry: CacheEntry| *entry.output)
    }

    /// Each retained entry: result, last access and weight.
    pub closed spec fn entry_views(&self) -> Map<Seq<char>, EntryView> {
        self.entries.view_map().map_values(|entry: CacheEntry| entry_view(entry))
    }

    /// The access clock: the time of the latest access.
    pub closed spec fn clock_now(&self) -> u64 {
        self.clock
    }

    pub closed spec fn entry_count(&self) -> nat {
        self.entries.key_seq().len()
    }

    pub closed spec fn byte_total(&self) -> nat {
        self.bytes as nat
    }

    /// The retained results are the results of the entry views.
    pub proof fn lemma_cached_views(&self)
        ensures
            self.cached() == self.entry_views().map_values(|entry: EntryView| entry.output),
    {
        assert(self.cached() =~= self.entry_views().map_values(|entry: EntryView| entry.output));
    }

    /// The number of entries is the number of retained sources.
    pub proof fn lemma_count_views(&self)
        requires
            self.wf(),
        ensures
            self.entry_count() == self.entry_views().dom().len(),
            self.entry_views().dom().finite(),
    {
        self.entries.lemma_dom_len();
        assert(self.entry_views().dom() =~= self.entries.view_map().dom());
    }

    /// An empty cache.
    pub fn new() -> (state: CacheState)
        ensures
            state.wf(),
            state.cached() == Map::<Seq<char>, LoweringOutput>::empty(),
            state.entry_views() == Map::<Seq<char>, EntryView>::empty(),
            state.entry_count() == 0,
            state.byte_total() == 0,
            state.clock_now() == 0,
    {
        let state = CacheState { entries: TextMap::new(), bytes: 0, clock: 0 };
        assert(state.cached() =~= Map::<Seq<char>, LoweringOutput>::empty());
        assert(state.entry_views() =~= Map::<Seq<char>, EntryView>::empty());
        state
    }

    /// Advance the access clock, saturating at its maximum.
    fn next_access(&mut self) -> (access: u64)
        ensures
            access == tick(old(self).clock),
            final(self).clock == access,
            final(self).entries == old(self).entries,
            final(self).bytes == old(self).bytes,
    {
        self.clock = self.clock.saturating_add(1);
        self.clock
    }

    proof fn lemma_count_fits(&self)
        ensures
            self.entry_count() == self.entries.key_seq().len(),
    {
    }

    /// The retained result for `source`, marking it most recently used.
    pub fn get(&mut self, source: &str) -> (found: Option<Arc<LoweringOutput>>)
        requires
            old(self).wf(),
        ensures
            final(self).wf(),
            final(self).cached() == old(self).cached(),
            final(self).entry_count() == old(self).entry_count(),
            final(self).byte_total() == old(self).byte_total(),
            final(self).clock_now() == tick(old(self).clock_now()),
            found is Some <==> old(self).cached().contains_key(source@),
            found matches Some(output) ==> *output == old(self).cached()[source@],
            found is None ==> final(self).entry_views() == old(self).entry_views(),
            found is Some ==> final(self).entry_views() == old(self).entry_views().insert(
                source@,
                EntryView { access: tick(old(self).clock_now()), ..old(self).entry_views()[source@] },
            ),
    {
        let access = self.next_access();
        let ghost before = self.entries.view_map();
        let ghost views = self.entry_views();
        let ghost values0 = self.entries.value_seq();
        proof {
            self.entries.lemma_dom_len();
        }
        match self.entries.remove(source) {
            None => {
                assert(self.entries.view_map() =~= before);
                assert(self.entry_views() =~= views);
                None
            },
            Some(entry) => {
                let ghost values1 = self.entries.value_seq();
                proof {
                    let i = choose|i: int| 0 <= i < values0.len() && values0[i] == entry && values1 == #[trigger] values0.remove(i);
                    lemma_weight_remove(values0, i);
                }
                let output = Arc::clone(&entry.output);
                let refreshed = CacheEntry {
                    output: entry.output,
                    last_access: access,
                    weight: entry.weight,
                };
                let ghost fresh = refreshed;
                proof {
                    assert(!self.entries.key_seq().contains(source@)) by {
                        self.entries.lemma_keys();
                        if self.entries.key_seq().contains(source@) {
                            let n = self.entries.key_seq().index_of(source@);
                            self.entries.lemma_entry(n);
                        }
                    }
                }
                let previous = self.entries.insert(source.to_owned(), refreshed);
                proof {
                    assert(previous is None);
                    let values2 = self.entries.value_seq();
                    let j = choose|j: int| 0 <= j <= values1.len() && values2 == #[trigger] values1.insert(j, fresh);
                    lemma_weight_insert(values1, j, fresh);
                    assert(self.cached() =~= before.map_values(
                        |entry: CacheEntry| *entry.output,
                    ));
                    assert(self.entry_views() =~= views.insert(
                        source@,
                        EntryView { access: access, ..views[source@] },
                    ));
                    self.entries.lemma_dom_len();
                    assert(self.entries.view_map().dom() =~= before.dom());
                }
                Some(output)
            },
        }
    }

    /// When each retained source was last used.
    pub closed spec fn accesses(&self) -> Map<Seq<char>, u64> {
        self.entries.view_map().map_values(|entry: CacheEntry| entry.last_access)
    }

    /// Drop the least recently used result; `false` when nothing is retained.
    pub fn evict_lru(&mut self) -> (evicted: bool)
        requires
            old(self).wf(),
        ensures
            final(self).wf(),
            final(self).clock_now() == old(self).clock_now(),
            evicted <==> old(self).entry_count() > 0,
            !evicted ==> final(self).entry_views() == old(self).entry_views() && final(self).byte_total()
                == old(self).byte_total(),
            evicted ==> {
                let key = lru_key(old(self).entry_views());
                &&& is_lru(old(self).entry_views(), key)
                &&& final(self).entry_views() == old(self).entry_views().remove(key)
                &&& final(self).byte_total() == saturating_minus(old(self).byte_total(), old(self).entry_views()[key].weight as nat)
            },
            evicted ==> final(self).entry_count() == old(self).entry_count() - 1,
            !evicted ==> final(self).entry_count() == old(self).entry_count(),
    {
        let count = self.entries.len();
        proof {
            self.entries.lemma_len();
        }
        if count == 0 {
            return false;
        }
        let mut best: usize = 0;
        let mut i: usize = 1;
        while i < count
            invariant
                self.wf(),
                count == self.entries.key_seq().len(),
                0 < count,
                self.entries.value_seq().len() == count,
                best < i <= count,
                forall|k: int|
                    0 <= k < i ==> self.entries.value_seq()[best as int].last_access
                        <= #[trigger] self.entries.value_seq()[k].last_access,
                forall|k: int|
                    0 <= k < best ==> self.entries.value_seq()[best as int].last_access
                        < #[trigger] self.entries.value_seq()[k].last_access,
            decreases count - i,
        {
            if self.entries.value_at(i).last_access < self.entries.value_at(best).last_access {
                best = i;
            }
            i = i + 1;
        }
        let key = self.entries.key_at(best).clone();
        let ghost old_map = self.entries.view_map();
        let ghost views = self.entry_views();
        let ghost values0 = self.entries.value_seq();
        let ghost k = key@;
        proof {
            self.entries.lemma_entry(best as int);
            self.entries.lemma_sorted();
            assert forall|other: Seq<char>| #[trigger] views.contains_key(other) implies views[k].access
                < views[other].access || (views[k].access == views[other].access && (other == k
                || crate::ordered::text_lt(k, other))) by {
                self.entries.lemma_keys();
                let j = self.entries.key_seq().index_of(other);
                self.entries.lemma_entry(j);
                if j != best as int && j > best as int {
                    assert(crate::ordered::text_lt(self.entries.key_seq()[best as int], self.entries.key_seq()[j]));
                }
            }
            assert(is_lru(views, k));
            lemma_lru_unique(views, k, lru_key(views));
            self.entries.lemma_dom_len();
        }
        let removed = self.entries.remove(key.as_str());
        match removed {
            Some(entry) => {
                proof {
                    let values1 = self.entries.value_seq();
                    let j = choose|j: int| 0 <= j < values0.len() && values0[j] == entry && values1 == #[trigger] values0.remove(j);
                    lemma_weight_remove(values0, j);
                    assert(entry == old_map[k]);
                }
                self.bytes = self.bytes.saturating_sub(entry.weight);
            },
            None => {},
        }
        proof {
            assert(self.entry_views() =~= views.remove(k));
        }
        true
    }

    /// Retain a freshly lowered result for `source` whose retained-size
    /// estimate is `weight`: a result without an estimate, or heavier than the
    /// byte bound, is skipped; otherwise least recently used results are
    /// evicted until it fits, and it is retained as the most recently used.
    /// An equal source already retained is returned instead.
    pub fn insert(&mut self, source: &str, output: Arc<LoweringOutput>, weight: Option<usize>, config: CacheConfig) -> (outcome:
        InsertOutcome)
        requires
            old(self).wf(),
        ensures
            final(self).wf(),
            old(self).cached().contains_key(source@) <==> outcome is Existing,
            match outcome {
                InsertOutcome::Existing(existing) => {
                    &&& *existing == old(self).cached()[source@]
                    &&& final(self).cached() == old(self).cached()
                    &&& final(self).entry_views() == old(self).entry_views().insert(
                        source@,
                        EntryView { access: tick(old(self).clock_now()), ..old(self).entry_views()[source@] },
                    )
                    &&& final(self).clock_now() == tick(old(self).clock_now())
                    &&& final(self).entry_count() == old(self).entry_count()
                    &&& final(self).byte_total() == old(self).byte_total()
                },
                InsertOutcome::Skipped(kept) => {
                    &&& kept == output
                    &&& (weight is None || weight->0 > config.max_bytes || config.max_entries == 0)
                    &&& final(self).clock_now() == tick(old(self).clock_now())
                    &&& (weight is None || weight->0 > config.max_bytes) ==> final(self).entry_views()
                        == old(self).entry_views() && final(self).byte_total() == old(self).byte_total()
                },
                InsertOutcome::Inserted { output: kept, evictions } => {
                    let w = weight->0;
                    let room = make_room(old(self).entry_views(), old(self).byte_total(), w as nat, config);
                    &&& kept == output
                    &&& weight is Some && w <= config.max_bytes && config.max_entries > 0
                    &&& final(self).entry_views() == room.0.insert(
                        source@,
                        EntryView { output: *output, access: tick(tick(old(self).clock_now())), weight: w },
                    )
                    &&& final(self).byte_total() == saturating_plus(room.1, w as nat)
                    &&& evictions == room.2
                    &&& final(self).clock_now() == tick(tick(old(self).clock_now()))
                    &&& final(self).cached().contains_key(source@)
                    &&& final(self).cached()[source@] == *output
                    &&& final(self).entry_count() <= config.max_entries
                    &&& final(self).byte_total() <= config.max_bytes
                },
            },
    {
        if let Some(existing) = self.get(source) {
            return InsertOutcome::Existing(existing);
        }
        let size = match weight {
            Some(size) => size,
            None => return InsertOutcome::Skipped(output),
        };
        if size > config.max_bytes {
            return InsertOutcome::Skipped(output);
        }
        let ghost views0 = self.entry_views();
        let ghost bytes0 = self.byte_total();
        let mut evictions: u64 = 0;
        let count0 = self.entries.len();
        proof {
            self.lemma_count_views();
        }
        while self.entries.len() >= config.max_entries || self.bytes.saturating_add(size)
            > config.max_bytes
            invariant
                self.wf(),
                size <= config.max_bytes,
                weight == Some(size),
                !self.entry_views().contains_key(source@),
                make_room(views0, bytes0, size as nat, config) == {
                    let rest = make_room(self.entry_views(), self.byte_total(), size as nat, config);
                    (rest.0, rest.1, (rest.2 + evictions) as nat)
                },
                evictions + self.entry_count() <= views0.dom().len(),
                self.entry_count() == self.entry_views().dom().len(),
                self.entry_views().dom().finite(),
                self.clock_now() == tick(old(self).clock_now()),
                views0 == old(self).entry_views(),
                bytes0 == old(self).byte_total(),
                views0.dom().len() == count0,
                !old(self).cached().contains_key(source@),
                self.entries.key_seq().len() == self.entry_count(),
            decreases self.entry_count(),
        {
            let ghost before = self.entry_views();
            let ghost bytes_before = self.byte_total();
            if !self.evict_lru() {
                proof {
                    self.entries.lemma_len();
                    assert(self.entries.value_seq() =~= Seq::<CacheEntry>::empty());
                    assert(weight_total(Seq::<CacheEntry>::empty()) == 0);
                    assert(self.bytes == 0);
                    assert(config.max_entries == 0);
                    assert(self.clock_now() == tick(old(self).clock_now()));
                }
                return InsertOutcome::Skipped(output);
            }
            proof {
                let key = lru_key(before);
                assert(before.contains_key(key));
                self.lemma_count_views();
            }
            evictions = evictions + 1;
        }
        let access = self.next_access();
        let entry = CacheEntry { output: Arc::clone(&output), last_access: access, weight: size };
        let ghost fresh = entry;
        let ghost before = self.cached();
        let ghost views = self.entry_views();
        let ghost values0 = self.entries.value_seq();
        proof {
            self.entries.lemma_dom_len();
        }
        self.entries.insert(source.to_owned(), entry);
        proof {
            let values1 = self.entries.value_seq();
            let j = choose|j: int| 0 <= j <= values0.len() && values1 == #[trigger] values0.insert(j, fresh);
            lemma_weight_insert(values0, j, fresh);
            self.entries.lemma_dom_len();
            assert(self.cached() =~= before.insert(source@, *output));
            assert(self.entry_views() =~= views.insert(source@, entry_view(fresh)));
            assert(self.entries.view_map().dom() =~= self.entries.view_map().dom());
        }
        self.bytes = self.bytes.saturating_add(size);
        InsertOutcome::Inserted { output, evictions }
    }
}

/// Long-lived, release-pinned lowering front end with a bounded exact-source cache.
///
/// Cache entries cannot cross Monty releases because every `Transpiler` owns
/// one immutable `CapabilityIndex`. Only successful lowering results are cached.
///
/// The transpiler is a plain value: `transpile` takes it by `&mut` and the
/// lowering as a function argument, so a transpiler shared between threads
/// must be guarded by its owner (for example behind a lock), and each call
/// names the lowering to run on a miss.
pub struct Transpiler {
    capabilities: CapabilityIndex,
    config: CacheConfig,
    cache: CacheState,
    counters: CacheStats,
}

/// What a lowering callback gave back for a source, as a transpile result.
pub open spec fn same_result(
    result: Result<Arc<LoweringOutput>, LoweringError>,
    lowered: Result<LoweringOutput, LoweringError>,
) -> bool {
    match (result, lowered) {
        (Ok(shared), Ok(output)) => *shared == output,
        (Err(error), Err(expected)) => error == expected,
        _ => false,
    }
}

/// The counters after a miss: one more miss, nothing else.
pub open spec fn miss_counted(counters: CacheStats) -> CacheStats {
    CacheStats { misses: counters.misses.wrapping_add(1), ..counters }
}

/// `lowered` is what `lower` gives for some text equal to `source` under `index`.
pub open spec fn lowering_of<F>(
    lower: F,
    source: Seq<char>,
    index: &CapabilityIndex,
    lowered: Result<LoweringOutput, LoweringError>,
) -> bool where F: Fn(&str, &CapabilityIndex) -> Result<LoweringOutput, LoweringError> {
    exists|text: &str| text@ == source && #[trigger] lower.ensures((text, index), lowered)
}

/// Every result a transpiler retains is what `lower` gives for its source under
/// the transpiler's capability index.
pub open spec fn retained_from<F>(t: Transpiler, lower: F) -> bool where
    F: Fn(&str, &CapabilityIndex) -> Result<LoweringOutput, LoweringError>,
 {
    forall|k: Seq<char>|
        #[trigger] t.cached().contains_key(k) ==> lowering_of(
            lower,
            k,
            t.index(),
            Ok::<LoweringOutput, LoweringError>(t.cached()[k]),
        )
}

/// `lower` gives at most one result for each source text under `index`.
pub open spec fn lowers_by_text<F>(lower: F, index: &CapabilityIndex) -> bool where
    F: Fn(&str, &CapabilityIndex) -> Result<LoweringOutput, LoweringError>,
 {
    forall|a: &str, b: &str, ra: Result<LoweringOutput, LoweringError>, rb: Result<LoweringOutput, LoweringError>|
        a@ == b@ && #[trigger] lower.ensures((a, index), ra) && #[trigger] lower.ensures((b, index), rb) ==> ra
            == rb
}

/// How a successful miss of `source` changed a transpiler, given the result's
/// retained-size estimate `weight`: without an estimate, or heavier than the
/// byte bound, the result is skipped and counted; otherwise least recently
/// used entries are evicted until it fits, it is retained as the most
/// recently used entry, and the insertion and evictions are counted.
pub open spec fn miss_recorded(
    before: Transpiler,
    after: Transpiler,
    source: Seq<char>,
    output: LoweringOutput,
    weight: Option<usize>,
) -> bool {
    let config = before.settings();
    let looked_up = tick(before.clock_now());
    let counted = miss_counted(before.counters());
    if weight is None || weight->0 > config.max_bytes {
        &&& after.entry_views() == before.entry_views()
        &&& after.byte_total() == before.byte_total()
        &&& after.clock_now() == tick(looked_up)
        &&& after.counters() == (CacheStats { skipped: counted.skipped.wrapping_add(1), ..counted })
    } else {
        let w = weight->0;
        let room = make_room(before.entry_views(), before.byte_total(), w as nat, config);
        &&& after.entry_views() == room.0.insert(
            source,
            EntryView { output: output, access: tick(tick(looked_up)), weight: w },
        )
        &&& after.byte_total() == saturating_plus(room.1, w as nat)
        &&& after.clock_now() == tick(tick(looked_up))
        &&& after.counters() == (CacheStats {
            insertions: counted.insertions.wrapping_add(1),
            evictions: counted.evictions.wrapping_add(room.2 as u64),
            ..counted
        })
    }
}

impl Transpiler {
    pub closed spec fn wf(&self) -> bool {
        &&& self.capabilities.wf()
        &&& self.cache.wf()
        &&& self.config.enabled() ==> self.cache.entry_count() <= self.config.max_entries
            && self.cache.byte_total() <= self.config.max_bytes
        &&& !self.config.enabled() ==> self.cache.cached() == Map::<Seq<char>, LoweringOutput>::empty()
            && self.cache.entry_count() == 0 && self.cache.byte_total() == 0
    }

    /// The cache never holds more entries or bytes than its bounds allow, and a
    /// cache with a zero bound holds nothing.
    pub proof fn lemma_cache_within_bounds(&self)
        requires
            self.wf(),
        ensures
            self.settings().enabled() ==> self.entry_count() <= self.settings().max_entries
                && self.byte_total() <= self.settings().max_bytes,
            !self.settings().enabled() ==> self.cached() == Map::<Seq<char>, LoweringOutput>::empty()
                && self.entry_count() == 0 && self.byte_total() == 0,
    {
    }

    /// The capability evidence this transpiler lowers against.
    pub closed spec fn index(&self) -> &CapabilityIndex {
        &self.capabilities
    }

    /// The cache bounds.
    pub closed spec fn settings(&self) -> CacheConfig {
        self.config
    }

    /// The retained results by exact source text.
    pub closed spec fn cached(&self) -> Map<Seq<char>, LoweringOutput> {
        self.cache.cached()
    }

    /// The cumulative counters.
    pub closed spec fn counters(&self) -> CacheStats {
        self.counters
    }

    pub closed spec fn entry_count(&self) -> nat {
        self.cache.entry_count()
    }

    /// Each retained entry: result, last access and weight.
    pub closed spec fn entry_views(&self) -> Map<Seq<char>, EntryView> {
        self.cache.entry_views()
    }

    /// The cache's access clock.
    pub closed spec fn clock_now(&self) -> u64 {
        self.cache.clock_now()
    }

    pub closed spec fn byte_total(&self) -> nat {
        self.cache.byte_total()
    }

    /// A transpiler with the default bounded cache.
    pub fn new(capabilities: CapabilityIndex) -> (transpiler: Transpiler)
        requires
            capabilities.wf(),
        ensures
            transpiler.wf(),
            *transpiler.index() == capabilities,
            transpiler.settings() == (CacheConfig { max_entries: DEFAULT_MAX_ENTRIES, max_bytes: DEFAULT_MAX_BYTES }),
            transpiler.cached() == Map::<Seq<char>, LoweringOutput>::empty(),
            transpiler.entry_views() == Map::<Seq<char>, EntryView>::empty(),
            transpiler.entry_count() == 0,
            transpiler.byte_total() == 0,
            transpiler.clock_now() == 0,
            transpiler.counters() == (CacheStats {
                hits: 0,
                misses: 0,
                insertions: 0,
                evictions: 0,
                skipped: 0,
                bypasses: 0,
                entries: 0,
                bytes: 0,
            }),
    {
        Transpiler::with_cache_config(capabilities, CacheConfig::default())
    }

    /// A transpiler with explicit cache bounds.
    pub fn with_cache_config(capabilities: CapabilityIndex, config: CacheConfig) -> (transpiler:
        Transpiler)
        requires
            capabilities.wf(),
        ensures
            transpiler.wf(),
            *transpiler.index() == capabilities,
            transpiler.settings() == config,
            transpiler.cached() == Map::<Seq<char>, LoweringOutput>::empty(),
            transpiler.entry_views() == Map::<Seq<char>, EntryView>::empty(),
            transpiler.entry_count() == 0,
            transpiler.byte_total() == 0,
            transpiler.clock_now() == 0,
            transpiler.counters() == (CacheStats {
                hits: 0,
                misses: 0,
                insertions: 0,
                evictions: 0,
                skipped: 0,
                bypasses: 0,
                entries: 0,
                bytes: 0,
            }),
    {
        Transpiler {
            capabilities,
            config,
            cache: CacheState::new(),
            counters: CacheStats {
                hits: 0,
                misses: 0,
                insertions: 0,
                evictions: 0,
                skipped: 0,
                bypasses: 0,
                entries: 0,
                bytes: 0,
            },
        }
    }

    /// The immutable Monty release identity for this cache namespace.
    pub fn target(&self) -> (target: &TargetFingerprint)
        ensures
            target.tag@ == self.index().tag(),
            crate::text::text_option(target.runtime_version) == self.index().runtime_version(),
    {
        self.capabilities.target()
    }

    /// Lower `source` with `lower`, or return the retained result of an exact
    /// earlier source. Only successful results are retained: a success whose
    /// retained-size estimate fits the byte bound is kept as the most recently
    /// used entry, evicting least recently used entries until the bounds hold;
    /// a heavier one is returned, counted as skipped, and not kept. A failure is
    /// returned as it is and changes no counter but the misses.
    pub fn transpile<F>(&mut self, source: &str, lower: F) -> (result: Result<Arc<LoweringOutput>, LoweringError>)
        where
            F: Fn(&str, &CapabilityIndex) -> Result<LoweringOutput, LoweringError>,
        requires
            old(self).wf(),
            lower.requires((source, old(self).index())),
        ensures
            final(self).wf(),
            final(self).index() == old(self).index(),
            final(self).settings() == old(self).settings(),
            retained_from(*old(self), lower) ==> retained_from(*final(self), lower),
            retained_from(*old(self), lower) ==> exists|lowered|
                lowering_of(lower, source@, old(self).index(), lowered) && same_result(result, lowered),
            !old(self).settings().enabled() ==> {
                &&& exists|lowered| lower.ensures((source, old(self).index()), lowered) && same_result(result, lowered)
                &&& final(self).cached() == old(self).cached()
                &&& final(self).entry_views() == old(self).entry_views()
                &&& final(self).clock_now() == old(self).clock_now()
                &&& final(self).counters() == (CacheStats {
                    bypasses: old(self).counters().bypasses.wrapping_add(1),
                    ..old(self).counters()
                })
            },
            old(self).settings().enabled() && old(self).cached().contains_key(source@) ==> {
                &&& result matches Ok(shared) && *shared == old(self).cached()[source@]
                &&& final(self).cached() == old(self).cached()
                &&& final(self).entry_views() == old(self).entry_views().insert(
                    source@,
                    EntryView { access: tick(old(self).clock_now()), ..old(self).entry_views()[source@] },
                )
                &&& final(self).byte_total() == old(self).byte_total()
                &&& final(self).clock_now() == tick(old(self).clock_now())
                &&& final(self).counters() == (CacheStats {
                    hits: old(self).counters().hits.wrapping_add(1),
                    ..old(self).counters()
                })
            },
            old(self).settings().enabled() && !old(self).cached().contains_key(source@) ==> exists|lowered|
                {
                    &&& lower.ensures((source, old(self).index()), lowered)
                    &&& same_result(result, lowered)
                    &&& match lowered {
                        Err(_) => {
                            &&& final(self).entry_views() == old(self).entry_views()
                            &&& final(self).byte_total() == old(self).byte_total()
                            &&& final(self).clock_now() == tick(old(self).clock_now())
                            &&& final(self).counters() == miss_counted(old(self).counters())
                        },
                        Ok(output) => exists|weight: Option<usize>|
                            weighed(weight, source@, output) && #[trigger] miss_recorded(
                                *old(self),
                                *final(self),
                                source@,
                                output,
                                weight,
                            ),
                    }
                },
    {
        if !self.config.is_enabled() {
            self.counters.bypasses = self.counters.bypasses.wrapping_add(1);
            let lowered = lower(source, &self.capabilities);
            let ghost produced = lowered;
            let result = match lowered {
                Ok(output) => Ok(Arc::new(output)),
                Err(error) => Err(error),
            };
            assert(lower.ensures((source, old(self).index()), produced));
            assert(same_result(result, produced));
            assert(lowering_of(lower, source@, old(self).index(), produced));
            return result;
        }
        if let Some(output) = self.cache.get(source) {
            self.counters.hits = self.counters.hits.wrapping_add(1);
            proof {
                if retained_from(*old(self), lower) {
                    let kept = Ok::<LoweringOutput, LoweringError>(old(self).cached()[source@]);
                    assert(lowering_of(lower, source@, old(self).index(), kept));
                    assert(same_result(Ok(output), kept));
                }
            }
            return Ok(output);
        }
        self.counters.misses = self.counters.misses.wrapping_add(1);
        let lowered = lower(source, &self.capabilities);
        let ghost produced = lowered;
        assert(lower.ensures((source, old(self).index()), produced));
        let output = match lowered {
            Ok(output) => Arc::new(output),
            Err(error) => {
                let result = Err(error);
                assert(same_result(result, produced));
                assert(lowering_of(lower, source@, old(self).index(), produced));
                assert(self.cached() == old(self).cached());
                assert(self.index() == old(self).index());
                return result;
            },
        };
        let ghost made = output;
        let weight = cache_weight(source, &output);
        let ghost looked = *self;
        let result = match self.cache.insert(source, output, weight, self.config) {
            InsertOutcome::Existing(existing) => Ok(existing),
            InsertOutcome::Inserted { output, evictions } => {
                self.counters.insertions = self.counters.insertions.wrapping_add(1);
                self.counters.evictions = self.counters.evictions.wrapping_add(evictions);
                Ok(output)
            },
            InsertOutcome::Skipped(output) => {
                self.counters.skipped = self.counters.skipped.wrapping_add(1);
                Ok(output)
            },
        };
        assert(result matches Ok(shared) && shared == made);
        assert(same_result(result, produced));
        proof {
            looked.cache.lemma_count_views();
            self.cache.lemma_count_views();
            assert(weighed(weight, source@, *made));
            assert(miss_recorded(*old(self), *self, source@, *made, weight));
            assert(lowering_of(lower, source@, old(self).index(), produced));
            if retained_from(*old(self), lower) {
                let out: LoweringOutput = *made;
                lemma_miss_keeps_provenance(*old(self), *self, source@, out, weight, lower);
            }
        }
        result
    }

    /// Remove every retained result while keeping the cumulative counters.
    pub fn clear_cache(&mut self)
        requires
            old(self).wf(),
        ensures
            final(self).wf(),
            final(self).cached() == Map::<Seq<char>, LoweringOutput>::empty(),
            final(self).entry_views() == Map::<Seq<char>, EntryView>::empty(),
            final(self).entry_count() == 0,
            final(self).byte_total() == 0,
            final(self).index() == old(self).index(),
            final(self).settings() == old(self).settings(),
            final(self).counters() == old(self).counters(),
    {
        self.cache = CacheState::new();
    }

    /// Cumulative counters plus the current cache size.
    pub fn cache_stats(&self) -> (stats: CacheStats)
        ensures
            stats == (CacheStats {
                entries: self.entry_count() as usize,
                bytes: self.byte_total() as usize,
                ..self.counters()
            }),
    {
        proof {
            self.cache.lemma_count_fits();
        }
        CacheStats {
            entries: self.cache.entries.len(),
            bytes: self.cache.bytes,
            ..self.counters
        }
    }
}


proof fn lemma_make_room_keeps(entries: Map<Seq<char>, EntryView>, bytes: nat, weight: nat, config: CacheConfig)
    ensures
        forall|k: Seq<char>|
            #[trigger] make_room(entries, bytes, weight, config).0.contains_key(k) ==> entries.contains_key(k)
                && make_room(entries, bytes, weight, config).0[k] == entries[k],
    decreases entries.dom().len(),
{
    let key = lru_key(entries);
    if entries.dom().finite() && crowded(entries, bytes, weight, config) && entries.contains_key(key) {
        let w = entries[key].weight;
        let rest = make_room(entries.remove(key), saturating_minus(bytes, w as nat), weight, config);
        assert(make_room(entries, bytes, weight, config).0 == rest.0);
        lemma_make_room_keeps(entries.remove(key), saturating_minus(bytes, w as nat), weight, config);
    } else {
        assert(make_room(entries, bytes, weight, config).0 == entries);
    }
}

proof fn lemma_miss_keeps_provenance<F>(
    before: Transpiler,
    after: Transpiler,
    source: Seq<char>,
    output: LoweringOutput,
    weight: Option<usize>,
    lower: F,
) where F: Fn(&str, &CapabilityIndex) -> Result<LoweringOutput, LoweringError>
    requires
        miss_recorded(before, after, source, output, weight),
        after.index() == before.index(),
        retained_from(before, lower),
        lowering_of(lower, source, before.index(), Ok::<LoweringOutput, LoweringError>(output)),
    ensures
        retained_from(after, lower),
{
    before.cache.lemma_cached_views();
    after.cache.lemma_cached_views();
    let config = before.settings();
    if weight is None || weight->0 > config.max_bytes {
        assert(after.cached() =~= before.cached());
    } else {
        let w = weight->0;
        let room = make_room(before.entry_views(), before.byte_total(), w as nat, config);
        lemma_make_room_keeps(before.entry_views(), before.byte_total(), w as nat, config);
        assert forall|k: Seq<char>| #[trigger] after.cached().contains_key(k) implies lowering_of(
            lower,
            k,
            after.index(),
            Ok::<LoweringOutput, LoweringError>(after.cached()[k]),
        ) by {
            if k != source {
                assert(room.0.contains_key(k));
                assert(before.entry_views().contains_key(k));
                assert(before.cached().contains_key(k));
                assert(after.cached()[k] == before.cached()[k]);
            }
        }
    }
}

/// A lowering that gives one result per source text is what every transpile
/// call answers, whatever the cache bounds and whatever was retained before:
/// a call's result and a fresh lowering of the same text agree.
pub proof fn lemma_results_follow_the_lowering<F>(
    lower: F,
    index: &CapabilityIndex,
    source: Seq<char>,
    result: Result<Arc<LoweringOutput>, LoweringError>,
    lowered: Result<LoweringOutput, LoweringError>,
    fresh: Result<LoweringOutput, LoweringError>,
) where F: Fn(&str, &CapabilityIndex) -> Result<LoweringOutput, LoweringError>
    requires
        lowers_by_text(lower, index),
        lowering_of(lower, source, index, lowered),
        same_result(result, lowered),
        lowering_of(lower, source, index, fresh),
    ensures
        same_result(result, fresh),
{
    let a = choose|text: &str| text@ == source && #[trigger] lower.ensures((text, index), lowered);
    let b = choose|text: &str| text@ == source && #[trigger] lower.ensures((text, index), fresh);
    assert(lowered == fresh);
}

/// A source whose lowering fails is never retained by a transpiler whose
/// retained results all came from that lowering.
pub proof fn lemma_failures_are_not_retained<F>(t: Transpiler, lower: F, source: Seq<char>, error: LoweringError) where
    F: Fn(&str, &CapabilityIndex) -> Result<LoweringOutput, LoweringError>,

    requires
        retained_from(t, lower),
        lowers_by_text(lower, t.index()),
        lowering_of(lower, source, t.index(), Err::<LoweringOutput, LoweringError>(error)),
    ensures
        !t.cached().contains_key(source),
{
    if t.cached().contains_key(source) {
        let ok = Ok::<LoweringOutput, LoweringError>(t.cached()[source]);
        let a = choose|text: &str| text@ == source && #[trigger] lower.ensures((text, t.index()), ok);
        let b = choose|text: &str|
            text@ == source && #[trigger] lower.ensures((text, t.index()), Err::<LoweringOutput, LoweringError>(error));
        assert(ok == Err::<LoweringOutput, LoweringError>(error));
    }
}

/// A successful miss whose result has an estimate within the byte bound is
/// retained: the result is kept as the most recently used entry and counted
/// as an insertion, so the next request for the same source is a hit.
pub proof fn lemma_fitting_miss_is_retained(
    before: Transpiler,
    after: Transpiler,
    source: Seq<char>,
    output: LoweringOutput,
    weight: usize,
)
    requires
        miss_recorded(before, after, source, output, Some(weight)),
        weight <= before.settings().max_bytes,
    ensures
        after.entry_views().contains_key(source),
        after.entry_views()[source].output == output,
        after.counters().insertions == before.counters().insertions.wrapping_add(1),
        after.counters().misses == before.counters().misses.wrapping_add(1),
        after.counters().skipped == before.counters().skipped,
        after.counters().hits == before.counters().hits,
{
}

/// A successful miss whose result has no estimate, or one above the byte
/// bound, is returned but not retained: nothing retained changes and the
/// skip is counted.
pub proof fn lemma_oversized_miss_is_skipped(
    before: Transpiler,
    after: Transpiler,
    source: Seq<char>,
    output: LoweringOutput,
    weight: Option<usize>,
)
    requires
        miss_recorded(before, after, source, output, weight),
        weight is None || weight->0 > before.settings().max_bytes,
    ensures
        after.entry_views() == before.entry_views(),
        after.byte_total() == before.byte_total(),
        after.counters().skipped == before.counters().skipped.wrapping_add(1),
        after.counters().insertions == before.counters().insertions,
        after.counters().evictions == before.counters().evictions,
{
}

/// Evictions take least recently used entries first: whenever room must be
/// made and something is retained, the entry evicted first is the least
/// recently used one, and none of the entries kept were removed.
pub proof fn lemma_eviction_takes_least_recent(
    entries: Map<Seq<char>, EntryView>,
    bytes: nat,
    weight: nat,
    config: CacheConfig,
)
    requires
        entries.dom().finite(),
        crowded(entries, bytes, weight, config),
        entries.dom().len() > 0,
    ensures
        is_lru(entries, lru_key(entries)),
        make_room(entries, bytes, weight, config) == {
            let key = lru_key(entries);
            let rest = make_room(
                entries.remove(key),
                saturating_minus(bytes, entries[key].weight as nat),
                weight,
                config,
            );
            (rest.0, rest.1, rest.2 + 1)
        },
{
    lemma_lru_exists(entries);
}

proof fn lemma_lru_exists(entries: Map<Seq<char>, EntryView>)
    requires
        entries.dom().finite(),
        entries.dom().len() > 0,
    ensures
        is_lru(entries, lru_key(entries)),
    decreases entries.dom().len(),
{
    let k = entries.dom().choose();
    assert(entries.contains_key(k));
    let rest = entries.remove(k);
    if rest.dom().len() == 0 {
        assert forall|other: Seq<char>| #[trigger] entries.contains_key(other) implies other == k by {
            if other != k {
                assert(rest.contains_key(other));
            }
        }
        assert(is_lru(entries, k));
    } else {
        lemma_lru_exists(rest);
        let m = lru_key(rest);
        let e = entries[k];
        let f = entries[m];
        let pick = if e.access < f.access || (e.access == f.access && crate::ordered::text_lt(k, m)) {
            k
        } else {
            m
        };
        assert forall|other: Seq<char>| #[trigger] entries.contains_key(other) implies entries[pick].access
            < entries[other].access || (entries[pick].access == entries[other].access && (other == pick
            || crate::ordered::text_lt(pick, other))) by {
            if other != k {
                assert(rest.contains_key(other));
            }
            if pick == k && other != k {
                if e.access == f.access && crate::ordered::text_lt(k, m) && rest[other].access == f.access
                    && other != m {
                    crate::ordered::lemma_bytes_lt_trans(
                        crate::text::utf8(k),
                        crate::text::utf8(m),
                        crate::text::utf8(other),
                    );
                }
            }
            if pick == m && other == k {
                if e.access == f.access {
                    crate::ordered::lemma_bytes_lt_total(crate::text::utf8(k), crate::text::utf8(m));
                    crate::text::lemma_utf8_injective(k, m);
                }
            }
        }
        assert(is_lru(entries, pick));
    }
}

} // verus!
