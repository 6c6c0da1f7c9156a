//! Release identity, archive validation and source selection for static
//! capability extraction.

use vstd::prelude::*;
use vstd::string::StringSliceAdditionalSpecFns;
use vstd::utf8::*;

use crate::ordered::TextMap;
use crate::text::{byte_views, concat_str, split_on, split_ascii, str_eq, utf8, lemma_utf8_concat};

verus! {

/// Root of Monty's Rust sources inside a repository checkout.
pub const SOURCE_DIR_REL: &'static str = "crates/monty/src";

pub const MODULES_REL: &'static str = "crates/monty/src/modules/mod.rs";

pub const TYPES_REL: &'static str = "crates/monty/src/types/type.rs";

pub const INTERN_REL: &'static str = "crates/monty/src/intern.rs";

/// Largest accepted compressed archive, in bytes.
pub const MAX_ARCHIVE_BYTES: usize = 67108864;

/// Largest accepted number of archive entries.
pub const MAX_ARCHIVE_ENTRIES: usize = 100000;

/// Largest accepted expanded size of one archive entry, in bytes.
pub const MAX_ARCHIVE_FILE_BYTES: u64 = 33554432;

/// Largest accepted expanded size of a whole archive, in bytes.
pub const MAX_ARCHIVE_EXPANDED_BYTES: u64 = 268435456;

/// Largest accepted release metadata response, in bytes.
pub const MAX_RELEASE_METADATA_BYTES: usize = 1048576;

pub const GITHUB_RELEASE_API: &'static str = "https://api.github.com/repos/pydantic/monty/releases/latest";

pub const GITHUB_RELEASE_TAG_API_PREFIX: &'static str =
    "https://api.github.com/repos/pydantic/monty/releases/tags/";

pub const GITHUB_TAG_ARCHIVE_PREFIX: &'static str = "https://github.com/pydantic/monty/archive/refs/tags/";

pub const MONTY_REPOSITORY: &'static str = "https://github.com/pydantic/monty";

/// Immutable identity of a published Monty release.
#[derive(Debug, Clone)]
pub struct ReleaseMetadata {
    pub repository: String,
    pub tag: String,
    pub runtime_version: String,
    pub published_at: Option<String>,
    pub release_url: Option<String>,
    pub archive_url: String,
}

/// Failure while loading, validating or scanning Monty sources.
#[derive(Debug)]
pub enum ExtractError {
    Io { path: String, message: String },
    MissingSource { candidates: Vec<String> },
    Archive(String),
    ArchiveRead(String),
    Http(String),
    HttpRead(String),
    HttpStatus { url: String, status: u16, reason: String },
    DownloadTooLarge { url: String, limit: usize },
    InvalidReleaseResponse(String),
    InvalidArchive(String),
    InvalidArchiveUtf8 { path: String },
    InvalidPattern { pattern: String, message: String },
    Serialize(String),
}

/// Bytes allowed in a release tag: ASCII letters, digits, `.`, `_` and `-`.
pub open spec fn safe_tag_byte(byte: u8) -> bool {
    (0x30 <= byte <= 0x39) || (0x41 <= byte <= 0x5a) || (0x61 <= byte <= 0x7a) || byte == 0x2e
        || byte == 0x5f || byte == 0x2d
}

/// A non-empty tag made only of URL-safe ASCII.
pub open spec fn safe_tag(bytes: Seq<u8>) -> bool {
    bytes.len() > 0 && forall|i: int| 0 <= i < bytes.len() ==> safe_tag_byte(#[trigger] bytes[i])
}

/// Whether a release tag can be interpolated into a URL.
pub fn is_safe_release_tag(tag: &str) -> (safe: bool)
    ensures
        safe == safe_tag(tag.spec_bytes()),
{
    let bytes = tag.as_bytes();
    if bytes.len() == 0 {
        return false;
    }
    let mut i: usize = 0;
    while i < bytes.len()
        invariant
            i <= bytes@.len(),
            bytes@ == tag.spec_bytes(),
            forall|k: int| 0 <= k < i ==> safe_tag_byte(#[trigger] bytes@[k]),
        decreases bytes@.len() - i,
    {
        let byte = bytes[i];
        if !((byte >= 0x30 && byte <= 0x39) || (byte >= 0x41 && byte <= 0x5a) || (byte >= 0x61
            && byte <= 0x7a) || byte == 0x2e || byte == 0x5f || byte == 0x2d) {
            assert(!safe_tag_byte(bytes@[i as int]));
            return false;
        }
        i = i + 1;
    }
    true
}

/// The tag a release request names: itself when it starts with `v`, else `v` prepended.
pub open spec fn requested_tag(release: &str) -> Seq<char> {
    if release.spec_bytes().len() > 0 && release.spec_bytes()[0] == 0x76 {
        release@
    } else {
        "v"@ + release@
    }
}

/// A bare version and the same version written with a leading `v` request the same tag.
pub proof fn lemma_tag_alias(bare: &str, prefixed: &str)
    requires
        prefixed@ == "v"@ + bare@,
        !(bare.spec_bytes().len() > 0 && bare.spec_bytes()[0] == 0x76),
    ensures
        requested_tag(bare) == requested_tag(prefixed),
{
    reveal_strlit("v");
    crate::text::lemma_first_char_ascii(prefixed@, 0x76);
    assert(prefixed@[0] == 'v');
}

/// Normalize `latest` to `None` and a bare or `v`-prefixed version to its tag.
pub fn normalize_release_tag(release: &str) -> (result: Result<Option<String>, ExtractError>)
    ensures
        release@ == "latest"@ ==> result matches Ok(None),
        release@ != "latest"@ ==> (result is Ok <==> safe_tag(utf8(requested_tag(release)))),
        release@ != "latest"@ ==> (result matches Ok(tag) ==> (tag matches Some(t) && t@
            == requested_tag(release))),
        result matches Err(error) ==> error matches ExtractError::InvalidReleaseResponse(message)
            && message@ == "release "@ + crate::text::debug_text(release@) + " contains unsupported characters"@,
{
    if str_eq(release, "latest") {
        return Ok(None);
    }
    let bytes = release.as_bytes();
    let tag = if bytes.len() > 0 && bytes[0] == 0x76 {
        release.to_owned()
    } else {
        concat_str("v", release)
    };
    if !is_safe_release_tag(tag.as_str()) {
        return Err(
            ExtractError::InvalidReleaseResponse(
                crate::archive::quoted_message("release ", release, " contains unsupported characters"),
            ),
        );
    }
    Ok(Some(tag))
}

/// Whether `bytes` holds `byte` somewhere.
pub open spec fn has_byte(bytes: Seq<u8>, byte: u8) -> bool {
    exists|i: int| 0 <= i < bytes.len() && bytes[i] == byte
}

/// `bytes` without one trailing `/`.
pub open spec fn without_trailing_slash(bytes: Seq<u8>) -> Seq<u8> {
    if bytes.len() > 0 && bytes.last() == 0x2f {
        bytes.drop_last()
    } else {
        bytes
    }
}

/// Empty, `.` and `..` path components are rejected.
pub open spec fn unsafe_component(component: Seq<u8>) -> bool {
    component.len() == 0 || component == seq![0x2eu8] || component == seq![0x2eu8, 0x2eu8]
}

/// The components of a safe relative archive path, or `None` when the path is unsafe.
pub open spec fn archive_path_components(name: Seq<u8>) -> Option<Seq<Seq<u8>>> {
    if name.len() == 0 || has_byte(name, 0x5c) || has_byte(name, 0) || name[0] == 0x2f {
        None
    } else {
        let components = split_on(without_trailing_slash(name), 0x2f);
        if exists|i: int| 0 <= i < components.len() && unsafe_component(#[trigger] components[i]) {
            None
        } else if has_byte(components[0], 0x3a) {
            None
        } else {
            Some(components)
        }
    }
}

/// Whether `bytes` holds `byte`.
pub fn contains_byte(bytes: &[u8], byte: u8) -> (found: bool)
    ensures
        found == has_byte(bytes@, byte),
{
    let mut i: usize = 0;
    while i < bytes.len()
        invariant
            i <= bytes@.len(),
            forall|k: int| 0 <= k < i ==> bytes@[k] != byte,
        decreases bytes@.len() - i,
    {
        if bytes[i] == byte {
            return true;
        }
        i = i + 1;
    }
    false
}

/// Split a ZIP entry name into safe, relative, `/`-separated components.
pub fn validate_archive_path(name: &str) -> (result: Result<Vec<&str>, ExtractError>)
    ensures
        result is Ok <==> archive_path_components(name.spec_bytes()) is Some,
        result matches Ok(components) ==> Some(
            byte_views(components@),
        ) == archive_path_components(name.spec_bytes()),
        result matches Err(error) ==> error is InvalidArchive,
{
    let bytes = name.as_bytes();
    if bytes.len() == 0 {
        return Err(ExtractError::InvalidArchive("an entry has an empty path".to_owned()));
    }
    if contains_byte(bytes, 0x5c) || contains_byte(bytes, 0) || bytes[0] == 0x2f {
        return Err(ExtractError::InvalidArchive(concat_str("unsafe entry path ", name)));
    }
    proof {
        vstd::utf8::encode_utf8_valid_utf8(name@);
        vstd::utf8::is_char_boundary_start_end_of_seq(name.spec_bytes());
    }
    let trimmed = if bytes[bytes.len() - 1] == 0x2f {
        proof {
            crate::text::lemma_ascii_is_boundary(name.spec_bytes(), bytes.len() - 1);
        }
        crate::text::str_range(name, 0, bytes.len() - 1)
    } else {
        name
    };
    assert(trimmed.spec_bytes() =~= without_trailing_slash(name.spec_bytes()));
    let components = split_ascii(trimmed, 0x2f);
    let ghost spec_components = split_on(without_trailing_slash(name.spec_bytes()), 0x2f);
    let ghost clean = !(name.spec_bytes().len() == 0 || has_byte(name.spec_bytes(), 0x5c) || has_byte(
        name.spec_bytes(),
        0,
    ) || name.spec_bytes()[0] == 0x2f);
    assert(clean);
    assert(byte_views(components@) == spec_components);
    let mut i: usize = 0;
    while i < components.len()
        invariant
            byte_views(components@) == spec_components,
            i <= components@.len(),
            clean == !(name.spec_bytes().len() == 0 || has_byte(name.spec_bytes(), 0x5c) || has_byte(
                name.spec_bytes(),
                0,
            ) || name.spec_bytes()[0] == 0x2f),
            clean,
            spec_components == split_on(without_trailing_slash(name.spec_bytes()), 0x2f),
            forall|k: int| 0 <= k < i ==> !unsafe_component(#[trigger] spec_components[k]),
        decreases components@.len() - i,
    {
        let part = components[i].as_bytes();
        assert(spec_components[i as int] == components@[i as int].spec_bytes());
        if part.len() == 0 || (part.len() == 1 && part[0] == 0x2e) || (part.len() == 2 && part[0]
            == 0x2e && part[1] == 0x2e) {
            proof {
                if part@.len() == 1 {
                    assert(part@ =~= seq![0x2eu8]);
                }
                if part@.len() == 2 {
                    assert(part@ =~= seq![0x2eu8, 0x2eu8]);
                }
                assert(unsafe_component(spec_components[i as int]));
                assert(!(name.spec_bytes().len() == 0 || has_byte(name.spec_bytes(), 0x5c) || has_byte(
                    name.spec_bytes(),
                    0,
                ) || name.spec_bytes()[0] == 0x2f));
                assert(archive_path_components(name.spec_bytes()) is None);
            }
            return Err(ExtractError::InvalidArchive(concat_str("unsafe entry path ", name)));
        }
        assert(!unsafe_component(spec_components[i as int]));
        i = i + 1;
    }
    assert(components@.len() > 0) by {
        assert(spec_components.len() > 0) by {
            lemma_split_nonempty(without_trailing_slash(name.spec_bytes()), 0x2f);
        }
    }
    assert(components@[0].spec_bytes() == spec_components[0]);
    if contains_byte(components[0].as_bytes(), 0x3a) {
        return Err(ExtractError::InvalidArchive(concat_str("unsafe entry path ", name)));
    }
    Ok(components)
}

/// A little-endian 16-bit field.
pub open spec fn le_u16_at(bytes: Seq<u8>, at: int) -> int {
    bytes[at] as int + 256 * bytes[at + 1] as int
}

/// Whether an end-of-central-directory record starts at `offset` and its
/// comment reaches exactly to the end of the archive.
pub open spec fn eocd_record_at(bytes: Seq<u8>, offset: int) -> bool {
    &&& 0 <= offset
    &&& offset + 22 <= bytes.len()
    &&& bytes[offset] == 0x50 && bytes[offset + 1] == 0x4b && bytes[offset + 2] == 0x05
        && bytes[offset + 3] == 0x06
    &&& bytes.len() == offset + 22 + le_u16_at(bytes, offset + 20)
}

/// The first offset searched for the end-of-central-directory record.
pub open spec fn eocd_search_start(len: int) -> int {
    if len > 22 + 65535 {
        len - (22 + 65535)
    } else {
        0
    }
}

/// The last end-of-central-directory record at or before `offset`.
pub open spec fn eocd_scan(bytes: Seq<u8>, offset: int) -> Option<int>
    decreases offset + 1,
{
    if offset < eocd_search_start(bytes.len() as int) || offset < 0 {
        None
    } else if eocd_record_at(bytes, offset) {
        Some(offset)
    } else {
        eocd_scan(bytes, offset - 1)
    }
}

/// The number of entries a single-disk, non-ZIP64 archive declares, when it does.
pub open spec fn declared_entry_count(bytes: Seq<u8>) -> Option<int> {
    match eocd_scan(bytes, bytes.len() - 4) {
        None => None,
        Some(offset) => if le_u16_at(bytes, offset + 4) != 0 || le_u16_at(bytes, offset + 6) != 0
            || le_u16_at(bytes, offset + 8) != le_u16_at(bytes, offset + 10) {
            None
        } else if le_u16_at(bytes, offset + 10) == 65535 {
            None
        } else {
            Some(le_u16_at(bytes, offset + 10))
        },
    }
}

fn read_le_u16(bytes: &[u8], at: usize) -> (value: usize)
    requires
        at + 1 < bytes@.len(),
    ensures
        value == le_u16_at(bytes@, at as int),
{
    bytes[at] as usize + 256 * (bytes[at + 1] as usize)
}

/// The offset of the last end-of-central-directory record, if any.
fn find_eocd(bytes: &[u8]) -> (offset: Option<usize>)
    requires
        bytes@.len() >= 4,
    ensures
        offset matches Some(o) ==> eocd_scan(bytes@, bytes@.len() - 4) == Some(o as int),
        offset is None ==> eocd_scan(bytes@, bytes@.len() - 4) is None,
{
    let len = bytes.len();
    let search_start: usize = if len > 22 + 65535 {
        len - (22 + 65535)
    } else {
        0
    };
    let mut offset: usize = len - 4;
    loop
        invariant
            len == bytes@.len(),
            4 <= len,
            search_start == eocd_search_start(len as int),
            offset <= len - 4,
            eocd_scan(bytes@, len - 4) == eocd_scan(bytes@, offset as int),
        decreases offset + 1,
    {
        if offset < search_start {
            assert(eocd_scan(bytes@, offset as int) is None);
            return None;
        }
        if bytes[offset] == 0x50 && bytes[offset + 1] == 0x4b && bytes[offset + 2] == 0x05
            && bytes[offset + 3] == 0x06 && len - offset >= 22 && len - offset == 22
            + read_le_u16(bytes, offset + 20) {
            return Some(offset);
        }
        if offset == 0 {
            assert(eocd_scan(bytes@, -1) is None);
            return None;
        }
        offset = offset - 1;
    }
}

proof fn lemma_eocd_scan_found(bytes: Seq<u8>, offset: int)
    ensures
        eocd_scan(bytes, offset) matches Some(o) ==> eocd_record_at(bytes, o),
    decreases offset + 1,
{
    if !(offset < eocd_search_start(bytes.len() as int) || offset < 0) && !eocd_record_at(bytes, offset) {
        lemma_eocd_scan_found(bytes, offset - 1);
    }
}

/// The entry count declared by a ZIP archive's end-of-central-directory record.
pub fn standard_zip_entry_count(bytes: &[u8]) -> (result: Result<usize, ExtractError>)
    ensures
        result is Ok <==> declared_entry_count(bytes@) is Some,
        result matches Ok(count) ==> declared_entry_count(bytes@) == Some(count as int),
        result matches Err(error) ==> error is InvalidArchive,
{
    let len = bytes.len();
    if len < 4 {
        assert(eocd_scan(bytes@, len - 4) is None);
        return Err(
            ExtractError::InvalidArchive(
                "end-of-central-directory record is missing".to_owned(),
            ),
        );
    }
    let found = match find_eocd(bytes) {
        Some(found) => found,
        None => {
            return Err(
                ExtractError::InvalidArchive(
                    "end-of-central-directory record is missing".to_owned(),
                ),
            );
        },
    };
    assert(eocd_record_at(bytes@, found as int)) by {
        lemma_eocd_scan_found(bytes@, len - 4);
    }
    let disk_number = read_le_u16(bytes, found + 4);
    let central_directory_disk = read_le_u16(bytes, found + 6);
    let entries_on_disk = read_le_u16(bytes, found + 8);
    let total_entries = read_le_u16(bytes, found + 10);
    if disk_number != 0 || central_directory_disk != 0 || entries_on_disk != total_entries {
        return Err(
            ExtractError::InvalidArchive("multi-disk ZIP archives are not supported".to_owned()),
        );
    }
    if total_entries == 65535 {
        return Err(
            ExtractError::InvalidArchive(
                "ZIP64 archives are not accepted by the bounded source loader".to_owned(),
            ),
        );
    }
    Ok(total_entries)
}

/// All source text the extractor reads, with every Rust file by its
/// repository-relative path.
pub struct SourceBundle {
    pub builtins: String,
    pub modules: String,
    pub types: String,
    pub exceptions: String,
    pub intern: String,
    pub rust_files: TextMap<String>,
}

/// Candidate paths of the builtin function table, most recent layout first.
pub fn builtins_candidates() -> (paths: Vec<&'static str>)
    ensures
        paths@.map_values(|p: &str| p@) == seq![
            "crates/monty-types/src/builtins.rs"@,
            "crates/monty/src/builtins/mod.rs"@,
        ],
{
    let paths = vec!["crates/monty-types/src/builtins.rs", "crates/monty/src/builtins/mod.rs"];
    assert(paths@.map_values(|p: &str| p@) =~= seq![
        "crates/monty-types/src/builtins.rs"@,
        "crates/monty/src/builtins/mod.rs"@,
    ]);
    paths
}

/// Candidate paths of the exception type table, most recent layout first.
pub fn exceptions_candidates() -> (paths: Vec<&'static str>)
    ensures
        paths@.map_values(|p: &str| p@) == seq![
            "crates/monty-types/src/exceptions.rs"@,
            "crates/monty/src/exception_private.rs"@,
        ],
{
    let paths = vec!["crates/monty-types/src/exceptions.rs", "crates/monty/src/exception_private.rs"];
    assert(paths@.map_values(|p: &str| p@) =~= seq![
        "crates/monty-types/src/exceptions.rs"@,
        "crates/monty/src/exception_private.rs"@,
    ]);
    paths
}

/// The source stored under `relative`, or the missing path.
pub fn read_from_map(sources: &TextMap<String>, relative: &str) -> (result: Result<
    String,
    ExtractError,
>)
    requires
        sources.wf(),
    ensures
        result is Ok <==> sources.view_map().contains_key(relative@),
        result matches Ok(text) ==> text@ == sources.view_map()[relative@]@,
        result matches Err(error) ==> error matches ExtractError::MissingSource { candidates } && candidates@.map_values(|c: String| c@) == seq![relative@],
{
    match sources.get(relative) {
        Some(text) => Ok(text.clone()),
        None => {
            let candidates = vec![relative.to_owned()];
            assert(candidates@.map_values(|c: String| c@) =~= seq![relative@]);
            Err(ExtractError::MissingSource { candidates })
        },
    }
}

/// The index of the first candidate present in `keys`, if any.
pub open spec fn first_present(keys: Set<Seq<char>>, candidates: Seq<Seq<char>>) -> Option<int>
    decreases candidates.len(),
{
    if candidates.len() == 0 {
        None
    } else if keys.contains(candidates[0]) {
        Some(0)
    } else {
        match first_present(keys, candidates.drop_first()) {
            Some(i) => Some(i + 1),
            None => None,
        }
    }
}

/// The source stored under the first present candidate path, or all candidates.
pub fn read_first_from_map(sources: &TextMap<String>, candidates: &Vec<&str>) -> (result: Result<
    String,
    ExtractError,
>)
    requires
        sources.wf(),
    ensures
        result is Ok <==> first_present(
            sources.view_map().dom(),
            candidates@.map_values(|c: &str| c@),
        ) is Some,
        result matches Ok(text) ==> exists|i: int|
            first_present(sources.view_map().dom(), candidates@.map_values(|c: &str| c@)) == Some(i)
                && text@ == sources.view_map()[candidates@[i]@]@,
        result matches Err(error) ==> error matches ExtractError::MissingSource { candidates: missing } && missing@.map_values(|c: String| c@) == candidates@.map_values(|c: &str| c@),
{
    let ghost names = candidates@.map_values(|c: &str| c@);
    let ghost keys = sources.view_map().dom();
    let mut i: usize = 0;
    assert(names.skip(0) =~= names);
    while i < candidates.len()
        invariant
            sources.wf(),
            i <= candidates@.len(),
            names == candidates@.map_values(|c: &str| c@),
            keys == sources.view_map().dom(),
            first_present(keys, names) == match first_present(keys, names.skip(i as int)) {
                Some(j) => Some(j + i),
                None => None::<int>,
            },
        decreases candidates@.len() - i,
    {
        assert(names.skip(i as int).drop_first() =~= names.skip(i + 1));
        assert(names.skip(i as int)[0] == candidates@[i as int]@);
        if let Some(text) = sources.get(candidates[i]) {
            return Ok(text.clone());
        }
        i = i + 1;
    }
    let mut missing: Vec<String> = Vec::new();
    let mut k: usize = 0;
    while k < candidates.len()
        invariant
            k <= candidates@.len(),
            missing@.len() == k,
            forall|j: int| 0 <= j < k ==> (#[trigger] missing@[j])@ == candidates@[j]@,
        decreases candidates@.len() - k,
    {
        missing.push(candidates[k].to_owned());
        k = k + 1;
    }
    assert(missing@.map_values(|c: String| c@) =~= candidates@.map_values(|c: &str| c@));
    assert(names.skip(candidates@.len() as int) =~= Seq::<Seq<char>>::empty());
    Err(ExtractError::MissingSource { candidates: missing })
}

/// The first present candidate is one of the candidates, and present.
pub proof fn lemma_first_present_bounds(keys: Set<Seq<char>>, candidates: Seq<Seq<char>>)
    ensures
        first_present(keys, candidates) matches Some(i) ==> 0 <= i < candidates.len() && keys.contains(
            candidates[i],
        ),
    decreases candidates.len(),
{
    if candidates.len() > 0 && !keys.contains(candidates[0]) {
        lemma_first_present_bounds(keys, candidates.drop_first());
    }
}

/// The first candidate present among `keys`.
pub open spec fn chosen_path(keys: Set<Seq<char>>, candidates: Seq<Seq<char>>) -> Seq<char> {
    match first_present(keys, candidates) {
        Some(i) => candidates[i],
        None => Seq::empty(),
    }
}

/// Where the builtin function table is read from.
pub open spec fn builtins_path(keys: Set<Seq<char>>) -> Seq<char> {
    chosen_path(keys, seq!["crates/monty-types/src/builtins.rs"@, "crates/monty/src/builtins/mod.rs"@])
}

/// Where the exception type table is read from.
pub open spec fn exceptions_path(keys: Set<Seq<char>>) -> Seq<char> {
    chosen_path(keys, seq!["crates/monty-types/src/exceptions.rs"@, "crates/monty/src/exception_private.rs"@])
}

/// A set of repository paths holds every file the extractor reads.
pub open spec fn bundle_complete(paths: Set<Seq<char>>) -> bool {
    &&& first_present(
        paths,
        seq!["crates/monty-types/src/builtins.rs"@, "crates/monty/src/builtins/mod.rs"@],
    ) is Some
    &&& paths.contains(MODULES_REL@)
    &&& paths.contains(TYPES_REL@)
    &&& first_present(
        paths,
        seq!["crates/monty-types/src/exceptions.rs"@, "crates/monty/src/exception_private.rs"@],
    ) is Some
    &&& paths.contains(INTERN_REL@)
}

/// `bundle` holds the Rust sources `files`, keyed by repository-relative
/// path, and the extractor's inputs selected from them.
pub open spec fn loaded_from(bundle: SourceBundle, files: Map<Seq<char>, Seq<char>>) -> bool {
    &&& bundle.rust_files.wf()
    &&& crate::capability_scan::text_map_view(bundle.rust_files) == files
    &&& bundle.builtins@ == files[builtins_path(files.dom())]
    &&& bundle.exceptions@ == files[exceptions_path(files.dom())]
    &&& bundle.modules@ == files[MODULES_REL@]
    &&& bundle.types@ == files[TYPES_REL@]
    &&& bundle.intern@ == files[INTERN_REL@]
}

impl SourceBundle {
    /// Select the files the extractor reads from a map of repository-relative Rust sources.
    pub fn from_rust_files(rust_files: TextMap<String>) -> (result: Result<SourceBundle, ExtractError>)
        requires
            rust_files.wf(),
        ensures
            result is Ok <==> bundle_complete(rust_files.view_map().dom()),
            result matches Ok(bundle) ==> {
                &&& bundle.builtins@ == rust_files.view_map()[builtins_path(rust_files.view_map().dom())]@
                &&& bundle.exceptions@ == rust_files.view_map()[exceptions_path(rust_files.view_map().dom())]@
                &&& bundle.modules@ == rust_files.view_map()[MODULES_REL@]@
                &&& bundle.types@ == rust_files.view_map()[TYPES_REL@]@
                &&& bundle.intern@ == rust_files.view_map()[INTERN_REL@]@
                &&& bundle.rust_files.view_map() == rust_files.view_map()
                &&& bundle.rust_files.wf()
                &&& loaded_from(bundle, crate::capability_scan::text_map_view(rust_files))
            },
            result matches Err(error) ==> error is MissingSource,
    {
        let builtin_paths = builtins_candidates();
        let builtins = read_first_from_map(&rust_files, &builtin_paths)?;
        proof {
            let keys = rust_files.view_map().dom();
            let names = builtin_paths@.map_values(|c: &str| c@);
            let i = choose|i: int| first_present(keys, names) == Some(i) && builtins@ == rust_files.view_map()[builtin_paths@[i]@]@;
            lemma_first_present_bounds(keys, names);
            assert(names[i] == builtin_paths@[i]@);
        }
        let modules = read_from_map(&rust_files, MODULES_REL)?;
        let types = read_from_map(&rust_files, TYPES_REL)?;
        let exception_paths = exceptions_candidates();
        let exceptions = read_first_from_map(&rust_files, &exception_paths)?;
        proof {
            let keys = rust_files.view_map().dom();
            let names = exception_paths@.map_values(|c: &str| c@);
            let i = choose|i: int| first_present(keys, names) == Some(i) && exceptions@ == rust_files.view_map()[exception_paths@[i]@]@;
            lemma_first_present_bounds(keys, names);
            assert(names[i] == exception_paths@[i]@);
        }
        let intern = read_from_map(&rust_files, INTERN_REL)?;
        let ghost files = crate::capability_scan::text_map_view(rust_files);
        assert(files.dom() =~= rust_files.view_map().dom());
        let bundle = SourceBundle { builtins, modules, types, exceptions, intern, rust_files };
        assert(crate::capability_scan::text_map_view(bundle.rust_files) =~= files);
        Ok(bundle)
    }
}

/// The repository-relative directory of Monty's interpreter sources.
pub fn source_directory_relative() -> (path: &'static str)
    ensures
        path@ == SOURCE_DIR_REL@,
{
    SOURCE_DIR_REL
}

/// The exact archive URL of a release tag.
pub open spec fn archive_url_of(tag: Seq<char>) -> Seq<char> {
    GITHUB_TAG_ARCHIVE_PREFIX@ + tag + ".zip"@
}

/// The archive URL of `tag`.
pub fn archive_url_for(tag: &str) -> (url: String)
    ensures
        url@ == archive_url_of(tag@),
{
    let head = concat_str(GITHUB_TAG_ARCHIVE_PREFIX, tag);
    let url = concat_str(head.as_str(), ".zip");
    url
}

/// Check that resolved release metadata names a safe tag and exactly that
/// tag's archive before anything is downloaded from it.
pub fn check_release_archive(metadata: &ReleaseMetadata) -> (result: Result<(), ExtractError>)
    ensures
        result is Ok <==> safe_tag(utf8(metadata.tag@)) && metadata.archive_url@ == archive_url_of(
            metadata.tag@,
        ),
        result matches Err(error) ==> error matches ExtractError::InvalidReleaseResponse(message)
            && message@ == if !safe_tag(utf8(metadata.tag@)) {
            "tag "@ + crate::text::debug_text(metadata.tag@) + " contains unsupported characters"@
        } else {
            "archive URL "@ + crate::text::debug_text(metadata.archive_url@) + " does not match release tag "@
                + crate::text::debug_text(metadata.tag@)
        },
{
    if !is_safe_release_tag(metadata.tag.as_str()) {
        return Err(
            ExtractError::InvalidReleaseResponse(
                crate::archive::quoted_message("tag ", metadata.tag.as_str(), " contains unsupported characters"),
            ),
        );
    }
    let expected = archive_url_for(metadata.tag.as_str());
    if !str_eq(metadata.archive_url.as_str(), expected.as_str()) {
        let head = crate::archive::quoted_message(
            "archive URL ",
            metadata.archive_url.as_str(),
            " does not match release tag ",
        );
        let message = crate::archive::quoted_message(head.as_str(), metadata.tag.as_str(), "");
        proof {
            reveal_strlit("");
            assert(message@ =~= "archive URL "@ + crate::text::debug_text(metadata.archive_url@)
                + " does not match release tag "@ + crate::text::debug_text(metadata.tag@));
        }
        return Err(ExtractError::InvalidReleaseResponse(message));
    }
    Ok(())
}

/// The release API address for a request, with the tag it must resolve to.
pub fn release_api_url(release: &str) -> (result: Result<(String, Option<String>), ExtractError>)
    ensures
        release@ == "latest"@ ==> (result matches Ok((url, tag)) && url@ == GITHUB_RELEASE_API@
            && tag is None),
        release@ != "latest"@ ==> (result is Ok <==> safe_tag(utf8(requested_tag(release)))),
        release@ != "latest"@ ==> (result matches Ok((url, tag)) ==> (tag matches Some(t) && t@
            == requested_tag(release) && url@ == GITHUB_RELEASE_TAG_API_PREFIX@ + t@)),
        result matches Err(error) ==> error is InvalidReleaseResponse,
{
    match normalize_release_tag(release)? {
        None => Ok((GITHUB_RELEASE_API.to_owned(), None)),
        Some(tag) => {
            let url = concat_str(GITHUB_RELEASE_TAG_API_PREFIX, tag.as_str());
            Ok((url, Some(tag)))
        },
    }
}

/// Accept resolved metadata only when it carries the requested tag.
pub fn check_resolved_release(requested: Option<String>, metadata: ReleaseMetadata) -> (result:
    Result<ReleaseMetadata, ExtractError>)
    ensures
        result is Ok <==> (requested matches Some(tag) ==> tag@ == metadata.tag@),
        result matches Ok(accepted) ==> accepted == metadata,
        result matches Err(error) ==> error matches ExtractError::InvalidReleaseResponse(message)
            && requested matches Some(tag) && message@ == "requested tag "@ + crate::text::debug_text(tag@)
            + " but GitHub returned "@ + crate::text::debug_text(metadata.tag@),
{
    if let Some(tag) = requested {
        if !str_eq(metadata.tag.as_str(), tag.as_str()) {
            let head = crate::archive::quoted_message("requested tag ", tag.as_str(), " but GitHub returned ");
            let message = crate::archive::quoted_message(head.as_str(), metadata.tag.as_str(), "");
            proof {
                reveal_strlit("");
                assert(message@ =~= "requested tag "@ + crate::text::debug_text(tag@) + " but GitHub returned "@
                    + crate::text::debug_text(metadata.tag@));
            }
            return Err(ExtractError::InvalidReleaseResponse(message));
        }
    }
    Ok(metadata)
}

/// Whether a JSON document parses.
pub uninterp spec fn json_document_parses(document: Seq<u8>) -> bool;

/// The text held by a string member of a parsed JSON object, if it has one.
pub uninterp spec fn json_text_member(document: Seq<u8>, key: Seq<char>) -> Option<Seq<char>>;

/// `serde_json::from_slice` into a `serde_json::Value`, then `Value::get` and
/// `Value::as_str`: the text of a string member of a JSON object, `None` when
/// the member is missing or not a string, or the parser's message when the
/// document is not JSON. The parser's message is not described.
#[verifier::external_body]
fn json_string_member(document: &[u8], key: &str) -> (result: Result<Option<String>, String>)
    ensures
        result is Ok <==> json_document_parses(document@),
        result matches Ok(member) ==> crate::text::text_option(member) == json_text_member(
            document@,
            key@,
        ),
{
    match serde_json::from_slice::<serde_json::Value>(document) {
        Ok(value) => Ok(value.get(key).and_then(serde_json::Value::as_str).map(str::to_owned)),
        Err(error) => Err(error.to_string()),
    }
}

/// The runtime version a tag names: the tag without one leading `v`.
pub open spec fn runtime_version_of(tag: Seq<char>) -> Seq<char> {
    if tag.len() > 0 && tag[0] == 'v' {
        tag.drop_first()
    } else {
        tag
    }
}

/// The text without one leading `v`.
pub fn strip_v_prefix(text: &str) -> (rest: String)
    ensures
        rest@ == runtime_version_of(text@),
{
    let bytes = text.as_bytes();
    proof {
        vstd::utf8::encode_utf8_valid_utf8(text@);
    }
    if bytes.len() > 0 && bytes[0] == 0x76 {
        proof {
            crate::text::lemma_ascii_is_boundary(text.spec_bytes(), 0);
            crate::text::lemma_boundary_after_ascii(text.spec_bytes(), 0);
            vstd::utf8::is_char_boundary_start_end_of_seq(text.spec_bytes());
            lemma_first_char_v(text@);
        }
        let rest = crate::text::str_range(text, 1, bytes.len());
        proof {
            crate::text::lemma_utf8_injective(rest@, text@.drop_first());
        }
        rest.to_owned()
    } else {
        proof {
            if text@.len() > 0 && text@[0] == 'v' {
                lemma_leading_v_byte(text@);
            }
        }
        text.to_owned()
    }
}

proof fn lemma_ascii_v_utf8()
    ensures
        utf8(seq!['v']) == seq![0x76u8],
{
    let chars = seq!['v'];
    assert(chars[0] as u32 == 0x76);
    assert(chars.drop_first() =~= Seq::<char>::empty());
    assert(utf8(chars.drop_first()) =~= Seq::<u8>::empty());
    assert((0x76u32 & 0x7Fu32) as u8 == 0x76u8) by (bit_vector);
    assert(vstd::utf8::encode_scalar(0x76) =~= seq![0x76u8]);
    assert(utf8(chars) =~= vstd::utf8::encode_scalar(0x76) + utf8(chars.drop_first()));
}

proof fn lemma_leading_v_byte(text: Seq<char>)
    requires
        text.len() > 0,
        text[0] == 'v',
    ensures
        utf8(text).len() > 0 && utf8(text)[0] == 0x76,
{
    lemma_ascii_v_utf8();
    assert(text =~= seq!['v'] + text.drop_first());
    lemma_utf8_concat(seq!['v'], text.drop_first());
}

proof fn lemma_first_char_v(text: Seq<char>)
    requires
        utf8(text).len() > 0,
        utf8(text)[0] == 0x76,
    ensures
        text.len() > 0,
        text[0] == 'v',
        utf8(text).subrange(1, utf8(text).len() as int) == utf8(text.drop_first()),
{
    if text.len() == 0 {
        assert(utf8(text) =~= Seq::<u8>::empty());
    }
    assert(text =~= seq![text[0]] + text.drop_first());
    lemma_utf8_concat(seq![text[0]], text.drop_first());
    let c = text[0] as u32;
    vstd::utf8::char_is_scalar(text[0]);
    let single = seq![text[0]];
    assert(single.drop_first() =~= Seq::<char>::empty());
    assert(utf8(single.drop_first()) =~= Seq::<u8>::empty());
    assert(utf8(single) =~= vstd::utf8::encode_scalar(c) + utf8(single.drop_first()));
    assert(utf8(text)[0] == vstd::utf8::encode_scalar(c)[0]);
    if !(c <= 0x7f) {
        assert((0xC0u8 | ((c >> 6u32) & 0x1Fu32) as u8) != 0x76u8) by (bit_vector);
        assert((0xE0u8 | ((c >> 12u32) & 0x0Fu32) as u8) != 0x76u8) by (bit_vector);
        assert((0xF0u8 | ((c >> 18u32) & 0x7u32) as u8) != 0x76u8) by (bit_vector);
        assert(false);
    }
    assert(c <= 0x7f ==> (c & 0x7F) as u8 == c as u8) by (bit_vector);
    vstd::utf8::char_u32_cast(text[0], c);
    assert(c == 0x76);
    assert((0x76u32 as char) == 'v');
}

/// Normalize a GitHub release API response to exact release metadata.
pub fn parse_release_metadata(document: &[u8]) -> (result: Result<ReleaseMetadata, ExtractError>)
    ensures
        result is Ok <==> (json_document_parses(document@) && (json_text_member(
            document@,
            "tag_name"@,
        ) matches Some(tag) && safe_tag(utf8(tag)) && runtime_version_of(tag).len() > 0)),
        result matches Ok(metadata) ==> json_text_member(document@, "tag_name"@) == Some(
            metadata.tag@,
        ) && metadata.runtime_version@ == runtime_version_of(metadata.tag@)
            && metadata.repository@ == MONTY_REPOSITORY@ && metadata.archive_url@
            == archive_url_of(metadata.tag@) && crate::text::text_option(metadata.published_at)
            == json_text_member(document@, "published_at"@) && crate::text::text_option(metadata.release_url) == json_text_member(document@, "html_url"@),
        result matches Err(error) ==> error is InvalidReleaseResponse,
{
    let tag = match json_string_member(document, "tag_name") {
        Err(message) => return Err(ExtractError::InvalidReleaseResponse(message)),
        Ok(None) => {
            return Err(
                ExtractError::InvalidReleaseResponse("response has no string tag_name".to_owned()),
            )
        },
        Ok(Some(tag)) => tag,
    };
    if !is_safe_release_tag(tag.as_str()) {
        return Err(
            ExtractError::InvalidReleaseResponse(
                crate::archive::quoted_message("tag_name ", tag.as_str(), " contains unsupported characters"),
            ),
        );
    }
    let runtime_version = strip_v_prefix(tag.as_str());
    if runtime_version.as_str().as_bytes().len() == 0 {
        assert(runtime_version@.len() == 0) by {
            if runtime_version@.len() > 0 {
                assert(utf8(runtime_version@) =~= vstd::utf8::encode_scalar(
                    runtime_version@[0] as u32,
                ) + utf8(runtime_version@.drop_first()));
            }
        }
        return Err(
            ExtractError::InvalidReleaseResponse("release tag has no runtime version".to_owned()),
        );
    }
    assert(runtime_version@.len() > 0) by {
        if runtime_version@.len() == 0 {
            assert(utf8(runtime_version@) =~= Seq::<u8>::empty());
        }
    }
    let published_at = match json_string_member(document, "published_at") {
        Ok(value) => value,
        Err(message) => return Err(ExtractError::InvalidReleaseResponse(message)),
    };
    let release_url = match json_string_member(document, "html_url") {
        Ok(value) => value,
        Err(message) => return Err(ExtractError::InvalidReleaseResponse(message)),
    };
    let archive_url = archive_url_for(tag.as_str());
    Ok(
        ReleaseMetadata {
            repository: MONTY_REPOSITORY.to_owned(),
            tag,
            runtime_version,
            published_at,
            release_url,
            archive_url,
        },
    )
}

proof fn lemma_split_nonempty(bytes: Seq<u8>, sep: u8)
    ensures
        split_on(bytes, sep).len() > 0,
    decreases bytes.len(),
{
    match crate::text::first_byte_from(bytes, 0, sep) {
        None => {},
        Some(i) => {
            if 0 <= i < bytes.len() {
                lemma_split_nonempty(bytes.subrange(i + 1, bytes.len() as int), sep);
            }
        },
    }
}

} // verus!
