//! Release selection for the transpiler: which bundled manifest a release name
//! means, which transpiler serves it, and when a remotely published "latest"
//! manifest can be trusted.

use vstd::prelude::*;
use vstd::string::StringSliceAdditionalSpecFns;
use vstd::utf8::*;

use crate::coverage::{coverage_table, lowering_coverage};
use crate::extract::{runtime_version_of, strip_v_prefix};
use crate::lines::all_digits;
use crate::lowering::{DiagnosticDisposition, LoweringDiagnostic, LoweringOutput};
use crate::manifest::CapabilityIndex;
use crate::ordered::TextMap;
use crate::text::{
    concat_str, debug_quoted, debug_text, has_prefix_at, split_ascii, split_on, starts_with_at,
    str_eq, string_from_utf8, string_from_valid_utf8, utf8,
};
use crate::transpiler::Transpiler;

verus! {

broadcast use vstd::utf8::encode_utf8_valid_utf8;

/// The schema of the manifest channel document this engine reads.
pub const CHANNEL_SCHEMA_VERSION: u8 = 1;

/// A transpiler release error.
#[derive(Debug)]
pub enum BindingError {
    UnsupportedRelease(String),
    Latest(String),
    Manifest(String),
    Lowering(String),
    UnsafeDiagnostics(Vec<LoweringDiagnostic>),
}

/// A release name of at least three dot-separated parts, each made of ASCII digits.
pub open spec fn numeric_release(bytes: Seq<u8>) -> bool {
    let parts = split_on(bytes, 0x2e);
    parts.len() >= 3 && forall|i: int|
        0 <= i < parts.len() ==> (#[trigger] parts[i]).len() > 0 && all_digits(parts[i])
}

/// Whether `release` is a numeric Monty version such as `0.0.19`.
pub fn is_numeric_release(release: &str) -> (numeric: bool)
    ensures
        numeric == numeric_release(release.spec_bytes()),
{
    let parts = split_ascii(release, 0x2e);
    let ghost spec_parts = split_on(release.spec_bytes(), 0x2e);
    let mut i: usize = 0;
    while i < parts.len()
        invariant
            crate::text::byte_views(parts@) == spec_parts,
            spec_parts == split_on(release.spec_bytes(), 0x2e),
            i <= parts@.len(),
            forall|k: int| 0 <= k < i ==> (#[trigger] spec_parts[k]).len() > 0 && all_digits(spec_parts[k]),
        decreases parts@.len() - i,
    {
        let bytes = parts[i].as_bytes();
        assert(bytes@ == spec_parts[i as int]);
        if bytes.len() == 0 {
            assert(!(spec_parts[i as int].len() > 0 && all_digits(spec_parts[i as int])));
            return false;
        }
        let mut j: usize = 0;
        while j < bytes.len()
            invariant
                j <= bytes@.len(),
                i < spec_parts.len(),
                bytes@ == spec_parts[i as int],
                spec_parts == split_on(release.spec_bytes(), 0x2e),
                forall|k: int| 0 <= k < j ==> 0x30 <= #[trigger] bytes@[k] <= 0x39,
            decreases bytes@.len() - j,
        {
            if bytes[j] < 0x30 || bytes[j] > 0x39 {
                assert(!all_digits(bytes@)) by {
                    assert(!(0x30 <= bytes@[j as int] <= 0x39));
                }
                assert(!(spec_parts[i as int].len() > 0 && all_digits(spec_parts[i as int])));
                return false;
            }
            j = j + 1;
        }
        i = i + 1;
    }
    parts.len() >= 3
}

/// The report name of a diagnostic disposition.
pub fn disposition_name(disposition: DiagnosticDisposition) -> (name: &'static str)
    ensures
        name@ == match disposition {
            DiagnosticDisposition::Applied => "applied"@,
            DiagnosticDisposition::NeedsReview => "needs_review"@,
            DiagnosticDisposition::NotLowerable => "not_lowerable"@,
        },
{
    match disposition {
        DiagnosticDisposition::Applied => "applied",
        DiagnosticDisposition::NeedsReview => "needs_review",
        DiagnosticDisposition::NotLowerable => "not_lowerable",
    }
}

/// The decimal digits of `n`.
pub open spec fn decimal_bytes(n: nat) -> Seq<u8>
    decreases n,
{
    if n < 10 {
        seq![(0x30 + n) as u8]
    } else {
        decimal_bytes(n / 10).push((0x30 + n % 10) as u8)
    }
}

fn push_decimal(out: &mut Vec<u8>, n: u64)
    ensures
        final(out)@ == old(out)@ + decimal_bytes(n as nat),
    decreases n,
{
    if n >= 10 {
        push_decimal(out, n / 10);
    }
    out.push((0x30 + n % 10) as u8);
    proof {
        if n >= 10 {
            assert(out@ =~= old(out)@ + decimal_bytes(n as nat));
        } else {
            assert(out@ =~= old(out)@ + decimal_bytes(n as nat));
        }
    }
}

proof fn lemma_decimal_ascii(n: nat)
    ensures
        forall|i: int| 0 <= i < decimal_bytes(n).len() ==> #[trigger] decimal_bytes(n)[i] < 0x80,
    decreases n,
{
    if n >= 10 {
        lemma_decimal_ascii(n / 10);
        let d = decimal_bytes(n);
        let e = decimal_bytes(n / 10);
        assert(d == e.push((0x30 + n % 10) as u8));
        assert forall|i: int| 0 <= i < d.len() implies #[trigger] d[i] < 0x80 by {
            if i < e.len() {
                assert(d[i] == e[i]);
            }
        }
    }
}

/// `n` written in decimal.
pub fn decimal_text(n: u64) -> (text: String)
    ensures
        utf8(text@) == decimal_bytes(n as nat),
{
    let mut out: Vec<u8> = Vec::new();
    push_decimal(&mut out, n);
    proof {
        lemma_decimal_ascii(n as nat);
        assert(out@ =~= decimal_bytes(n as nat));
        crate::scanner::lemma_ascii_valid(out@);
    }
    string_from_valid_utf8(out)
}

/// The SHA-256 digest of `bytes`.
pub uninterp spec fn sha256_of(bytes: Seq<u8>) -> Seq<u8>;

/// `sha2::Sha256::digest`: the 32-byte SHA-256 digest of the input, named by `sha256_of`.
#[verifier::external_body]
pub(crate) fn sha256_digest(bytes: &[u8]) -> (digest: Vec<u8>)
    ensures
        digest@ == sha256_of(bytes@),
        digest@.len() == 32,
{
    <sha2::Sha256 as sha2::Digest>::digest(bytes).to_vec()
}

/// The lowercase hexadecimal digit for a value below sixteen.
pub open spec fn hex_digit(v: u8) -> u8 {
    if v < 10 {
        (0x30 + v) as u8
    } else {
        (0x57 + v) as u8
    }
}

/// `bytes` as lowercase hexadecimal, two digits per byte.
pub open spec fn hex_bytes(bytes: Seq<u8>) -> Seq<u8>
    decreases bytes.len(),
{
    if bytes.len() == 0 {
        Seq::empty()
    } else {
        hex_bytes(bytes.drop_last()) + seq![hex_digit(bytes.last() / 16), hex_digit(bytes.last() % 16)]
    }
}

/// Hexadecimal text has two digits for every byte.
pub proof fn lemma_hex_length(bytes: Seq<u8>)
    ensures
        hex_bytes(bytes).len() == 2 * bytes.len(),
    decreases bytes.len(),
{
    if bytes.len() > 0 {
        lemma_hex_length(bytes.drop_last());
    }
}

/// The lowercase hexadecimal SHA-256 digest of `bytes`.
pub fn sha256_hex(bytes: &[u8]) -> (hex: String)
    ensures
        utf8(hex@) == hex_bytes(sha256_of(bytes@)),
{
    let digest = sha256_digest(bytes);
    let mut out: Vec<u8> = Vec::new();
    let mut i: usize = 0;
    while i < digest.len()
        invariant
            i <= digest@.len(),
            out@ == hex_bytes(digest@.take(i as int)),
            forall|k: int| 0 <= k < out@.len() ==> #[trigger] out@[k] < 0x80,
        decreases digest@.len() - i,
    {
        let byte = digest[i];
        let high = byte / 16;
        let low = byte % 16;
        let high_digit = if high < 10 {
            0x30 + high
        } else {
            0x57 + high
        };
        let low_digit = if low < 10 {
            0x30 + low
        } else {
            0x57 + low
        };
        out.push(high_digit);
        out.push(low_digit);
        assert(digest@.take(i + 1).drop_last() =~= digest@.take(i as int));
        assert(out@ =~= hex_bytes(digest@.take(i + 1)));
        i = i + 1;
    }
    assert(digest@.take(digest@.len() as int) =~= digest@);
    proof {
        crate::scanner::lemma_ascii_valid(out@);
    }
    string_from_valid_utf8(out)
}

/// `bytes` with ASCII capitals turned into small letters.
pub open spec fn ascii_lower(bytes: Seq<u8>) -> Seq<u8> {
    crate::discovery::lowercase_ascii(bytes)
}

/// The release a name selects: `v` before a numeric version is dropped, and
/// `verified` stands for the verified bundled release.
pub open spec fn selected_release(release: Seq<char>, verified: Seq<char>) -> Seq<char> {
    let normalized = if release.len() > 0 && release[0] == 'v' && numeric_release(
        utf8(release.drop_first()),
    ) {
        release.drop_first()
    } else {
        release
    };
    if normalized == "verified"@ {
        verified
    } else {
        normalized
    }
}

/// The first piece a text is split into begins the text.
proof fn lemma_first_piece_prefix(bytes: Seq<u8>, sep: u8)
    ensures
        split_on(bytes, sep).len() > 0,
        split_on(bytes, sep)[0].len() <= bytes.len(),
        forall|k: int| 0 <= k < split_on(bytes, sep)[0].len() ==> #[trigger] split_on(bytes, sep)[0][k] == bytes[k],
{
    match crate::text::first_byte_from(bytes, 0, sep) {
        None => {},
        Some(i) => {
            if 0 <= i < bytes.len() {
                assert(split_on(bytes, sep)[0] == bytes.subrange(0, i));
            }
        },
    }
}

/// A bare numeric version and the same version written with a leading `v`
/// select the same bundled release.
pub proof fn lemma_release_alias(version: Seq<char>, verified: Seq<char>)
    requires
        numeric_release(utf8(version)),
    ensures
        selected_release("v"@ + version, verified) == selected_release(version, verified),
{
    let bytes = utf8(version);
    lemma_first_piece_prefix(bytes, 0x2e);
    let first = split_on(bytes, 0x2e)[0];
    assert(first.len() > 0 && all_digits(first));
    assert(first[0] == bytes[0]);
    crate::text::lemma_first_char_ascii(version, bytes[0]);
    assert(version.len() > 0 && version[0] != 'v');
    reveal_strlit("v");
    reveal_strlit("verified");
    assert(version != "verified"@) by {
        assert("verified"@[0] == 'v');
    }
    let prefixed = "v"@ + version;
    assert(prefixed[0] == 'v');
    assert(prefixed.drop_first() =~= version);
}

/// The manifests bundled with the engine, and the one it was verified against.
pub struct ReleaseRegistry {
    verified: String,
    manifests: Vec<(String, String)>,
}

/// A bundled release and its manifest text.
#[derive(Debug, Clone, PartialEq, Eq)]
pub struct ManifestSelection {
    pub release: String,
    pub source: String,
}

/// The first bundled entry for `version`.
pub open spec fn bundled_index(manifests: Seq<(Seq<char>, Seq<char>)>, version: Seq<char>) -> Option<int>
    decreases manifests.len(),
{
    if manifests.len() == 0 {
        None
    } else if manifests[0].0 == version {
        Some(0)
    } else {
        match bundled_index(manifests.drop_first(), version) {
            Some(i) => Some(i + 1),
            None => None,
        }
    }
}

impl ReleaseRegistry {
    pub closed spec fn verified_release(&self) -> Seq<char> {
        self.verified@
    }

    /// The bundled `(release, manifest)` pairs, in order.
    pub closed spec fn bundled(&self) -> Seq<(Seq<char>, Seq<char>)> {
        self.manifests@.map_values(|entry: (String, String)| (entry.0@, entry.1@))
    }

    /// A registry of bundled manifests.
    pub fn new(verified: String, manifests: Vec<(String, String)>) -> (registry: ReleaseRegistry)
        ensures
            registry.verified_release() == verified@,
            registry.bundled() == manifests@.map_values(|entry: (String, String)| (entry.0@, entry.1@)),
    {
        ReleaseRegistry { verified, manifests }
    }

    /// The bundled release names, in order.
    pub fn releases(&self) -> (names: Vec<&str>)
        ensures
            names@.len() == self.bundled().len(),
            forall|i: int| 0 <= i < names@.len() ==> (#[trigger] names@[i])@ == self.bundled()[i].0,
    {
        let mut names: Vec<&str> = Vec::new();
        let mut i: usize = 0;
        while i < self.manifests.len()
            invariant
                i <= self.manifests@.len(),
                names@.len() == i,
                forall|k: int| 0 <= k < i ==> (#[trigger] names@[k])@ == self.bundled()[k].0,
            decreases self.manifests@.len() - i,
        {
            names.push(self.manifests[i].0.as_str());
            i = i + 1;
        }
        names
    }

    /// The bundled manifest a release name selects.
    pub fn embedded_manifest(&self, release: &str) -> (selection: Result<ManifestSelection, BindingError>)
        ensures
            match bundled_index(self.bundled(), selected_release(release@, self.verified_release())) {
                Some(i) => selection matches Ok(s) && s.release@ == self.bundled()[i].0
                    && s.source@ == self.bundled()[i].1,
                None => selection matches Err(BindingError::UnsupportedRelease(name)) && name@ == release@,
            },
    {
        let bytes = release.as_bytes();
        let mut normalized = release.to_owned();
        if bytes.len() > 0 && bytes[0] == 0x76 {
            let rest = strip_v_prefix(release);
            proof {
                vstd::utf8::encode_utf8_decode_utf8(rest@);
                assert(release@.len() > 0) by {
                    if release@.len() == 0 {
                        assert(release.spec_bytes() =~= Seq::<u8>::empty());
                    }
                }
                crate::text::lemma_first_char_ascii(release@, 0x76);
            }
            if is_numeric_release(rest.as_str()) {
                normalized = rest;
            }
        } else {
            proof {
                if release@.len() > 0 && release@[0] == 'v' {
                    crate::text::lemma_first_char_ascii(release@, 0x76);
                }
            }
        }
        let resolved = if str_eq(normalized.as_str(), "verified") {
            self.verified.clone()
        } else {
            normalized
        };
        let ghost target = selected_release(release@, self.verified_release());
        assert(resolved@ == target);
        let ghost all = self.bundled();
        assert(all.skip(0) =~= all);
        let mut i: usize = 0;
        while i < self.manifests.len()
            invariant
                all == self.bundled(),
                i <= all.len(),
                resolved@ == target,
                target == selected_release(release@, self.verified_release()),
                bundled_index(all, target) == match bundled_index(all.skip(i as int), target) {
                    Some(j) => Some(j + i),
                    None => None,
                },
            decreases all.len() - i,
        {
            assert(all.skip(i as int).drop_first() =~= all.skip(i + 1));
            assert(all.skip(i as int)[0] == all[i as int]);
            if str_eq(self.manifests[i].0.as_str(), resolved.as_str()) {
                assert(all[i as int] == (self.manifests@[i as int].0@, self.manifests@[i as int].1@));
                assert(all[i as int].0 == target);
                assert(bundled_index(all.skip(i as int), target) == Some(0int));
                let selection = ManifestSelection {
                    release: self.manifests[i].0.clone(),
                    source: self.manifests[i].1.clone(),
                };
                assert(selection.release@ == all[i as int].0);
                assert(selection.source@ == all[i as int].1);
                return Ok(selection);
            }
            i = i + 1;
        }
        Err(BindingError::UnsupportedRelease(release.to_owned()))
    }
}

/// Transpilers built so far, one per bundled or remote release.
pub struct TranspilerRegistry {
    transpilers: TextMap<Transpiler>,
}

impl TranspilerRegistry {
    pub closed spec fn wf(&self) -> bool {
        self.transpilers.wf()
    }

    /// The transpiler kept for each release.
    pub closed spec fn kept(&self) -> Map<Seq<char>, Transpiler> {
        self.transpilers.view_map()
    }

    /// An empty registry.
    pub fn new() -> (registry: TranspilerRegistry)
        ensures
            registry.wf(),
            registry.kept() == Map::<Seq<char>, Transpiler>::empty(),
    {
        let registry = TranspilerRegistry { transpilers: TextMap::new() };
        assert(registry.kept() =~= Map::<Seq<char>, Transpiler>::empty());
        registry
    }

    /// The transpiler kept for `release`.
    pub fn get(&self, release: &str) -> (transpiler: Option<&Transpiler>)
        requires
            self.wf(),
        ensures
            transpiler is Some <==> self.kept().contains_key(release@),
            transpiler matches Some(t) ==> *t == self.kept()[release@],
    {
        self.transpilers.get(release)
    }

    /// Keep `candidate` for `release` unless a transpiler is already kept for it:
    /// the first one registered stays the one every later request shares.
    pub fn register(&mut self, release: String, candidate: Transpiler)
        requires
            old(self).wf(),
        ensures
            final(self).wf(),
            final(self).kept() == if old(self).kept().contains_key(release@) {
                old(self).kept()
            } else {
                old(self).kept().insert(release@, candidate)
            },
    {
        if self.transpilers.get(release.as_str()).is_none() {
            self.transpilers.insert(release, candidate);
        }
    }
}

/// The `latest` entry of a manifest channel document.
#[derive(Debug, Clone, PartialEq, Eq)]
pub struct ChannelRelease {
    pub release: String,
    pub manifest_url: String,
    pub sha256: String,
    pub compatible_transpilers: Vec<String>,
}

/// A manifest channel document.
#[derive(Debug, Clone, PartialEq, Eq)]
pub struct ManifestChannel {
    pub schema_version: u8,
    pub latest: ChannelRelease,
}

/// A remotely published manifest that passed every check.
#[derive(Debug, Clone, PartialEq, Eq)]
pub struct RemoteManifest {
    pub release: String,
    pub source: String,
}

/// The message `std::str::from_utf8` gives for bytes that are not UTF-8.
pub uninterp spec fn utf8_error_message(bytes: Seq<u8>) -> Seq<char>;

/// `std::str::from_utf8`, with the error rendered by its `Display`: succeeds
/// exactly on valid UTF-8; the error text is named by `utf8_error_message`.
#[verifier::external_body]
pub(crate) fn decode_utf8_text(bytes: &[u8]) -> (decoded: Result<String, String>)
    ensures
        decoded is Ok <==> valid_utf8(bytes@),
        decoded matches Ok(text) ==> text@ == decode_utf8(bytes@),
        decoded matches Err(message) ==> message@ == utf8_error_message(bytes@),
{
    match std::str::from_utf8(bytes) {
        Ok(text) => Ok(text.to_owned()),
        Err(error) => Err(error.to_string()),
    }
}

/// Whether any of `versions` is `engine`.
pub open spec fn lists_engine(versions: Seq<String>, engine: Seq<char>) -> bool {
    exists|i: int| 0 <= i < versions.len() && (#[trigger] versions[i])@ == engine
}

/// The first reason to distrust a channel entry and its downloaded manifest.
pub open spec fn channel_problem(channel: ManifestChannel, manifest: Seq<u8>, engine: Seq<char>) -> Option<Seq<char>> {
    let latest = channel.latest;
    if channel.schema_version != CHANNEL_SCHEMA_VERSION {
        Some("channel schema "@ + decode_utf8(decimal_bytes(channel.schema_version as nat))
            + " is unsupported; expected 1"@)
    } else if !numeric_release(utf8(latest.release@)) {
        Some("channel release "@ + debug_text(latest.release@) + " is not a numeric Monty version"@)
    } else if !lists_engine(latest.compatible_transpilers@, engine) {
        Some("Monty "@ + latest.release@ + " requires a newer compatible monty-compat wheel; this engine is "@ + engine)
    } else if !has_prefix_at(utf8(latest.manifest_url@), 0, utf8("https://"@)) {
        Some("manifest URL must use HTTPS"@)
    } else if hex_bytes(sha256_of(manifest)) != ascii_lower(utf8(latest.sha256@)) {
        Some("manifest SHA-256 mismatch for Monty "@ + latest.release@)
    } else if !valid_utf8(manifest) {
        Some("manifest is not UTF-8: "@ + utf8_error_message(manifest))
    } else {
        None
    }
}

fn latest_error(message: String) -> (error: BindingError)
    ensures
        error matches BindingError::Latest(m) && m@ == message@,
{
    BindingError::Latest(message)
}

/// Check a channel entry against the manifest bytes it points to, for an
/// engine of version `engine`; on success, the manifest text.
pub fn check_latest_channel(channel: &ManifestChannel, manifest: &[u8], engine: &str) -> (checked: Result<String, BindingError>)
    ensures
        match channel_problem(*channel, manifest@, engine@) {
            None => checked matches Ok(source) && utf8(source@) == manifest@,
            Some(message) => checked matches Err(BindingError::Latest(m)) && m@ == message,
        },
{
    let latest = &channel.latest;
    if channel.schema_version != CHANNEL_SCHEMA_VERSION {
        let number = decimal_text(channel.schema_version as u64);
        proof {
            vstd::utf8::encode_utf8_decode_utf8(number@);
        }
        let head = concat_str("channel schema ", number.as_str());
        return Err(latest_error(concat_str(head.as_str(), " is unsupported; expected 1")));
    }
    if !is_numeric_release(latest.release.as_str()) {
        let head = concat_str("channel release ", debug_quoted(latest.release.as_str()).as_str());
        return Err(latest_error(concat_str(head.as_str(), " is not a numeric Monty version")));
    }
    let mut listed = false;
    let mut i: usize = 0;
    while i < latest.compatible_transpilers.len()
        invariant
            i <= latest.compatible_transpilers@.len(),
            listed == exists|k: int| 0 <= k < i && (#[trigger] latest.compatible_transpilers@[k])@ == engine@,
        decreases latest.compatible_transpilers@.len() - i,
    {
        if str_eq(latest.compatible_transpilers[i].as_str(), engine) {
            listed = true;
        }
        i = i + 1;
    }
    if !listed {
        let head = concat_str("Monty ", latest.release.as_str());
        let head = concat_str(
            head.as_str(),
            " requires a newer compatible monty-compat wheel; this engine is ",
        );
        return Err(latest_error(concat_str(head.as_str(), engine)));
    }
    if !starts_with_at(latest.manifest_url.as_str().as_bytes(), 0, "https://".as_bytes()) {
        return Err(latest_error("manifest URL must use HTTPS".to_owned()));
    }
    let actual = sha256_hex(manifest);
    let expected = crate::discovery::lowercase_ascii_bytes(latest.sha256.as_str().as_bytes());
    if !crate::text::bytes_eq(actual.as_str().as_bytes(), expected.as_slice()) {
        return Err(latest_error(concat_str("manifest SHA-256 mismatch for Monty ", latest.release.as_str())));
    }
    match decode_utf8_text(manifest) {
        Ok(source) => {
            proof {
                vstd::utf8::decode_utf8_encode_utf8(manifest@);
            }
            Ok(source)
        },
        Err(message) => Err(latest_error(concat_str("manifest is not UTF-8: ", message.as_str()))),
    }
}

/// The runtime version a manifest targets: its recorded runtime version, or its tag without a leading `v`.
pub open spec fn targeted_version(tag: Seq<char>, runtime_version: Option<Seq<char>>) -> Seq<char> {
    match runtime_version {
        Some(version) => version,
        None => runtime_version_of(tag),
    }
}

/// Whether the coverage table has an entry for `feature`.
pub open spec fn covered(feature: Seq<char>) -> bool {
    exists|i: int| 0 <= i < coverage_table().len() && (#[trigger] coverage_table()[i]).feature@ == feature
}

/// The first feature, in the manifest's order, that is not supported and that
/// the coverage table does not know.
pub open spec fn unknown_feature_from(order: Seq<Seq<char>>, statuses: Map<Seq<char>, Seq<char>>, k: int) -> Option<Seq<char>>
    decreases order.len() - k,
{
    if k < 0 || k >= order.len() {
        None
    } else if statuses[order[k]] != "supported"@ && !covered(order[k]) {
        Some(order[k])
    } else {
        unknown_feature_from(order, statuses, k + 1)
    }
}

/// The first reason to distrust a manifest for the channel's `release`.
pub open spec fn manifest_problem(release: Seq<char>, capabilities: CapabilityIndex) -> Option<Seq<char>> {
    let target = targeted_version(capabilities.tag(), capabilities.runtime_version());
    if target != release {
        Some("channel says Monty "@ + release + ", but manifest targets "@ + target)
    } else {
        match unknown_feature_from(capabilities.feature_order(), capabilities.statuses(), 0) {
            Some(feature) => Some("manifest contains unsupported feature "@ + debug_text(feature)
                + " unknown to this lowering engine"@),
            None => None,
        }
    }
}

fn is_covered(table: &Vec<crate::coverage::FeatureLowering>, feature: &str) -> (known: bool)
    requires
        table@ == coverage_table(),
    ensures
        known == covered(feature@),
{
    let mut i: usize = 0;
    while i < table.len()
        invariant
            table@ == coverage_table(),
            i <= table@.len(),
            forall|k: int| 0 <= k < i ==> (#[trigger] coverage_table()[k]).feature@ != feature@,
        decreases table@.len() - i,
    {
        if str_eq(table[i].feature, feature) {
            return true;
        }
        i = i + 1;
    }
    false
}

/// Check that a downloaded manifest targets the channel's release and holds no
/// unsupported feature this engine does not know how to treat.
pub fn check_latest_manifest(release: &str, capabilities: &CapabilityIndex) -> (checked: Result<(), BindingError>)
    requires
        capabilities.wf(),
    ensures
        match manifest_problem(release@, *capabilities) {
            None => checked is Ok,
            Some(message) => checked matches Err(BindingError::Latest(m)) && m@ == message,
        },
{
    let target = capabilities.target();
    let target_version = match &target.runtime_version {
        Some(version) => version.clone(),
        None => strip_v_prefix(target.tag.as_str()),
    };
    if !str_eq(target_version.as_str(), release) {
        let head = concat_str("channel says Monty ", release);
        let head = concat_str(head.as_str(), ", but manifest targets ");
        return Err(latest_error(concat_str(head.as_str(), target_version.as_str())));
    }
    assert(target_version@ == targeted_version(capabilities.tag(), capabilities.runtime_version()));
    let table = lowering_coverage();
    let pairs = capabilities.feature_statuses();
    let ghost order = capabilities.feature_order();
    let ghost statuses = capabilities.statuses();
    let mut k: usize = 0;
    while k < pairs.len()
        invariant
            table@ == coverage_table(),
            targeted_version(capabilities.tag(), capabilities.runtime_version()) == release@,
            order == capabilities.feature_order(),
            statuses == capabilities.statuses(),
            pairs@.len() == order.len(),
            forall|i: int|
                0 <= i < pairs@.len() ==> (#[trigger] pairs@[i]).0@ == order[i]
                    && statuses.contains_key(pairs@[i].0@) && pairs@[i].1@ == statuses[pairs@[i].0@],
            k <= pairs@.len(),
            unknown_feature_from(order, statuses, 0) == unknown_feature_from(order, statuses, k as int),
        decreases pairs@.len() - k,
    {
        let (feature, status) = pairs[k];
        assert(pairs@[k as int].0@ == order[k as int]);
        if !str_eq(status, "supported") && !is_covered(&table, feature) {
            let head = concat_str("manifest contains unsupported feature ", debug_quoted(feature).as_str());
            return Err(latest_error(concat_str(head.as_str(), " unknown to this lowering engine")));
        }
        k = k + 1;
    }
    Ok(())
}

/// The diagnostics that did not end in an applied rewrite, in order.
pub open spec fn unresolved(diagnostics: Seq<LoweringDiagnostic>) -> Seq<LoweringDiagnostic>
    decreases diagnostics.len(),
{
    if diagnostics.len() == 0 {
        Seq::empty()
    } else {
        let rest = unresolved(diagnostics.drop_first());
        if diagnostics[0].disposition != DiagnosticDisposition::Applied {
            seq![diagnostics[0]] + rest
        } else {
            rest
        }
    }
}

/// Accept lowered code only when every diagnostic records an applied rewrite;
/// otherwise report the diagnostics that need review or cannot be lowered.
pub fn gate_diagnostics(output: LoweringOutput) -> (gated: Result<String, BindingError>)
    ensures
        unresolved(output.diagnostics@).len() == 0 ==> (gated matches Ok(code) && code@
            == output.code@),
        unresolved(output.diagnostics@).len() > 0 ==> (gated matches Err(
            BindingError::UnsafeDiagnostics(kept),
        ) && kept@ == unresolved(output.diagnostics@)),
{
    let ghost all = output.diagnostics@;
    let LoweringOutput { code, diagnostics, .. } = output;
    let mut rest = diagnostics;
    let mut kept: Vec<LoweringDiagnostic> = Vec::new();
    while rest.len() > 0
        invariant
            kept@ + unresolved(rest@) == unresolved(all),
        decreases rest@.len(),
    {
        let ghost before = rest@;
        let diagnostic = rest.remove(0);
        assert(before.drop_first() =~= rest@);
        if diagnostic.disposition != DiagnosticDisposition::Applied {
            kept.push(diagnostic);
            assert(kept@ + unresolved(rest@) =~= unresolved(all));
        }
    }
    assert(unresolved(rest@) == Seq::<LoweringDiagnostic>::empty());
    assert(kept@ =~= unresolved(all));
    if kept.len() == 0 {
        Ok(code)
    } else {
        Err(BindingError::UnsafeDiagnostics(kept))
    }
}

} // verus!
