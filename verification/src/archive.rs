//! Loading Monty sources from an in-memory GitHub-style ZIP archive: every
//! entry is checked (one top-level directory, safe unique paths, bounded
//! sizes) before the Rust files under `crates/` are read as UTF-8 text.

use vstd::prelude::*;
use vstd::string::StringSliceAdditionalSpecFns;
use vstd::utf8::*;

use crate::extract::{
    archive_path_components, declared_entry_count, standard_zip_entry_count, validate_archive_path,
    ExtractError, SourceBundle, MAX_ARCHIVE_BYTES, MAX_ARCHIVE_ENTRIES, MAX_ARCHIVE_EXPANDED_BYTES,
    MAX_ARCHIVE_FILE_BYTES,
};
use crate::ordered::TextMap;
use crate::release::{decimal_text, decode_utf8_text};
use crate::text::{byte_views, concat_str, debug_quoted, str_eq, string_from_utf8, utf8};

verus! {

broadcast use vstd::utf8::encode_utf8_valid_utf8, vstd::utf8::encode_utf8_decode_utf8, vstd::utf8::decode_utf8_encode_utf8;

/// What `zip::ZipArchive::new` reads from the bytes: the message of its error,
/// or, for each entry index in order, the raw name, uncompressed size and
/// directory flag of the file `by_index` opens there, or the message of the
/// error it gives for that index.
pub uninterp spec fn zip_listing(bytes: Seq<u8>) -> Result<Seq<Result<(Seq<u8>, u64, bool), Seq<char>>>, Seq<char>>;

/// The entry headers as plain values.
pub open spec fn listing_view(entries: Seq<Result<(Vec<u8>, u64, bool), String>>) -> Seq<Result<(Seq<u8>, u64, bool), Seq<char>>> {
    entries.map_values(
        |entry: Result<(Vec<u8>, u64, bool), String>| match entry {
            Ok((name, size, is_dir)) => Ok((name@, size, is_dir)),
            Err(message) => Err(message@),
        },
    )
}

/// `zip::ZipArchive::new` over the bytes, then `by_index` for every index
/// below `len()`, each file given by `name_raw`, `size` and `is_dir`; errors
/// by their `Display` text. What it returns is named by `zip_listing`.
#[verifier::external_body]
fn list_zip_entries(bytes: &[u8]) -> (listing: Result<Vec<Result<(Vec<u8>, u64, bool), String>>, String>)
    ensures
        match (listing, zip_listing(bytes@)) {
            (Ok(entries), Ok(named)) => listing_view(entries@) == named,
            (Err(message), Err(named)) => message@ == named,
            _ => false,
        },
{
    let mut archive = match zip::ZipArchive::new(std::io::Cursor::new(bytes)) {
        Ok(archive) => archive,
        Err(error) => return Err(error.to_string()),
    };
    let mut entries = Vec::new();
    for index in 0..archive.len() {
        entries.push(match archive.by_index(index) {
            Ok(file) => Ok((file.name_raw().to_vec(), file.size(), file.is_dir())),
            Err(error) => Err(error.to_string()),
        });
    }
    Ok(entries)
}

/// Why reading an entry's contents failed: the archive or the entry could not
/// be opened, or its data could not be read.
pub enum EntryReadError {
    Archive(String),
    Read(String),
}

/// What reading at most `limit` bytes of entry `index` gives: its data, or
/// whether the archive (`true`) or the read (`false`) failed, with the message.
pub uninterp spec fn zip_entry_read(bytes: Seq<u8>, index: int, limit: u64) -> Result<Seq<u8>, (bool, Seq<char>)>;

/// `zip::ZipArchive::new` over the bytes and `by_index(index)`, then
/// `Read::take(limit)` and `read_to_end` on the file. `take` documents that no
/// more than `limit` bytes are read; the rest is named by `zip_entry_read`.
#[verifier::external_body]
fn read_zip_entry(bytes: &[u8], index: usize, limit: u64) -> (read: Result<Vec<u8>, EntryReadError>)
    ensures
        match (read, zip_entry_read(bytes@, index as int, limit)) {
            (Ok(data), Ok(named)) => data@ == named && data@.len() <= limit,
            (Err(EntryReadError::Archive(message)), Err((true, named))) => message@ == named,
            (Err(EntryReadError::Read(message)), Err((false, named))) => message@ == named,
            _ => false,
        },
{
    let mut archive = match zip::ZipArchive::new(std::io::Cursor::new(bytes)) {
        Ok(archive) => archive,
        Err(error) => return Err(EntryReadError::Archive(error.to_string())),
    };
    let file = match archive.by_index(index) {
        Ok(file) => file,
        Err(error) => return Err(EntryReadError::Archive(error.to_string())),
    };
    let mut data = Vec::new();
    let mut limited = std::io::Read::take(file, limit);
    let outcome = match std::io::Read::read_to_end(&mut limited, &mut data) {
        Ok(_) => Ok(data),
        Err(error) => Err(EntryReadError::Read(error.to_string())),
    };
    outcome
}

/// The last index below `end` that holds `byte`.
pub open spec fn last_byte_before(bytes: Seq<u8>, end: int, byte: u8) -> Option<int>
    decreases end,
{
    if end <= 0 {
        None
    } else if bytes[end - 1] == byte {
        Some(end - 1)
    } else {
        last_byte_before(bytes, end - 1, byte)
    }
}

/// ASCII lowercase of one byte.
pub open spec fn lower_byte(byte: u8) -> u8 {
    if 0x41 <= byte <= 0x5a {
        (byte + 0x20) as u8
    } else {
        byte
    }
}

/// A file name whose extension, as `Path::extension` finds it (after the last
/// dot, unless that dot starts the name), is `rs` in any ASCII case.
pub open spec fn rust_source_spec(name: Seq<u8>) -> bool {
    match last_byte_before(name, name.len() as int, 0x2e) {
        Some(dot) => dot > 0 && name.len() == dot + 3 && lower_byte(name[dot + 1]) == 0x72 && lower_byte(
            name[dot + 2],
        ) == 0x73,
        None => false,
    }
}

/// Whether a path component names a Rust source file.
fn is_rust_source_name(name: &str) -> (rust: bool)
    ensures
        rust == rust_source_spec(name.spec_bytes()),
{
    let bytes = name.as_bytes();
    let mut end = bytes.len();
    while end > 0 && bytes[end - 1] != 0x2e
        invariant
            end <= bytes@.len(),
            last_byte_before(bytes@, bytes@.len() as int, 0x2e) == last_byte_before(bytes@, end as int, 0x2e),
        decreases end,
    {
        end = end - 1;
    }
    if end == 0 {
        return false;
    }
    let dot = end - 1;
    assert(last_byte_before(bytes@, bytes@.len() as int, 0x2e) == Some(dot as int));
    if dot == 0 || bytes.len() - dot != 3 {
        return false;
    }
    let first = bytes[dot + 1];
    let second = bytes[dot + 2];
    let first_lower = if 0x41 <= first && first <= 0x5a { first + 0x20 } else { first };
    let second_lower = if 0x41 <= second && second <= 0x5a { second + 0x20 } else { second };
    first_lower == 0x72 && second_lower == 0x73
}

/// Components joined by `/`.
pub open spec fn join_with_slash(parts: Seq<Seq<u8>>) -> Seq<u8>
    decreases parts.len(),
{
    if parts.len() == 0 {
        Seq::empty()
    } else if parts.len() == 1 {
        parts[0]
    } else {
        join_with_slash(parts.drop_last()) + seq![0x2fu8] + parts.last()
    }
}

/// The components from `from` on, joined by `/`.
fn join_from(parts: &Vec<&str>, from: usize) -> (joined: String)
    requires
        from <= parts@.len(),
    ensures
        utf8(joined@) == join_with_slash(byte_views(parts@).skip(from as int)),
{
    let ghost all = byte_views(parts@).skip(from as int);
    let slash = "/";
    proof {
        reveal_strlit("/");
        vstd::utf8::is_ascii_chars_encode_utf8(slash@);
        assert(slash.spec_bytes() =~= seq![0x2fu8]);
    }
    let mut joined = String::new();
    assert(utf8(joined@) =~= join_with_slash(all.take(0)));
    let mut i: usize = from;
    while i < parts.len()
        invariant
            from <= i <= parts@.len(),
            all == byte_views(parts@).skip(from as int),
            slash.spec_bytes() == seq![0x2fu8],
            utf8(joined@) == join_with_slash(all.take(i - from)),
        decreases parts@.len() - i,
    {
        let ghost k = i - from;
        assert(all.take(k + 1).drop_last() =~= all.take(k));
        assert(all.take(k + 1).last() == parts@[i as int].spec_bytes());
        if i == from {
            joined = parts[i].to_owned();
        } else {
            let with_slash = concat_str(joined.as_str(), slash);
            proof {
                crate::text::lemma_utf8_concat(joined@, slash@);
            }
            let grown = concat_str(with_slash.as_str(), parts[i]);
            proof {
                crate::text::lemma_utf8_concat(with_slash@, parts@[i as int]@);
            }
            joined = grown;
        }
        i = i + 1;
    }
    assert(all.take(parts@.len() - from) =~= all);
    joined
}

/// The checks an archive failed: opening it or an entry, reading an entry, the
/// archive's shape, or an entry's text.
pub enum ArchiveFailure {
    Archive,
    Read,
    Invalid,
    NotUtf8,
}

/// What has been accepted so far: the top-level directory, the normalized entry
/// paths, the Rust sources by path below it, and the bytes the entries expand to.
pub type ArchiveState = (Option<Seq<char>>, Set<Seq<char>>, Map<Seq<char>, Seq<char>>, int);

/// An entry skipped for its content: a directory, or anything but a Rust file under `crates/`.
pub open spec fn skipped_entry(is_dir: bool, relative: Seq<Seq<u8>>) -> bool {
    is_dir || relative.len() == 0 || relative[0] != utf8("crates"@) || !rust_source_spec(relative.last())
}

/// One entry read into the state, or the check it fails.
pub open spec fn entry_step(
    bytes: Seq<u8>,
    index: int,
    entry: Result<(Seq<u8>, u64, bool), Seq<char>>,
    state: ArchiveState,
) -> Result<ArchiveState, ArchiveFailure> {
    match entry {
        Err(_) => Err(ArchiveFailure::Archive),
        Ok((name, size, is_dir)) => if !valid_utf8(name) {
            Err(ArchiveFailure::Invalid)
        } else {
            match archive_path_components(name) {
                None => Err(ArchiveFailure::Invalid),
                Some(components) => {
                    let (root, seen, files, expanded) = state;
                    let top = decode_utf8(components[0]);
                    let relative = components.drop_first();
                    let normalized = decode_utf8(join_with_slash(components));
                    let total = expanded + size;
                    if (root matches Some(r) && r != top) || seen.contains(normalized) || size
                        > MAX_ARCHIVE_FILE_BYTES || total > MAX_ARCHIVE_EXPANDED_BYTES {
                        Err(ArchiveFailure::Invalid)
                    } else if skipped_entry(is_dir, relative) {
                        Ok((Some(top), seen.insert(normalized), files, total))
                    } else {
                        let path = decode_utf8(join_with_slash(relative));
                        match zip_entry_read(bytes, index, (size + 1) as u64) {
                            Err((true, _)) => Err(ArchiveFailure::Archive),
                            Err((false, _)) => Err(ArchiveFailure::Read),
                            Ok(data) => if data.len() != size {
                                Err(ArchiveFailure::Invalid)
                            } else if !valid_utf8(data) {
                                Err(ArchiveFailure::NotUtf8)
                            } else if files.contains_key(path) {
                                Err(ArchiveFailure::Invalid)
                            } else {
                                Ok((Some(top), seen.insert(normalized), files.insert(path, decode_utf8(data)), total))
                            },
                        }
                    }
                },
            }
        },
    }
}

/// The state after the first `n` entries, or the first check one fails.
pub open spec fn scan_entries(
    bytes: Seq<u8>,
    entries: Seq<Result<(Seq<u8>, u64, bool), Seq<char>>>,
    n: nat,
) -> Result<ArchiveState, ArchiveFailure>
    decreases n,
{
    if n == 0 {
        Ok((None, Set::empty(), Map::empty(), 0))
    } else {
        match scan_entries(bytes, entries, (n - 1) as nat) {
            Err(failure) => Err(failure),
            Ok(state) => entry_step(bytes, n - 1, entries[n - 1], state),
        }
    }
}

/// The error an archive failure is reported as.
pub open spec fn failure_matches(failure: ArchiveFailure, error: ExtractError) -> bool {
    match failure {
        ArchiveFailure::Archive => error is Archive,
        ArchiveFailure::Read => error is ArchiveRead,
        ArchiveFailure::Invalid => error is InvalidArchive,
        ArchiveFailure::NotUtf8 => error is InvalidArchiveUtf8,
    }
}

/// The Rust sources an archive yields, or the check it fails.
pub open spec fn archive_sources(bytes: Seq<u8>) -> Result<Map<Seq<char>, Seq<char>>, ArchiveFailure> {
    if bytes.len() > MAX_ARCHIVE_BYTES {
        Err(ArchiveFailure::Invalid)
    } else {
        match declared_entry_count(bytes) {
            None => Err(ArchiveFailure::Invalid),
            Some(declared) => match zip_listing(bytes) {
                Err(_) => Err(ArchiveFailure::Archive),
                Ok(entries) => if entries.len() != declared || entries.len() > MAX_ARCHIVE_ENTRIES {
                    Err(ArchiveFailure::Invalid)
                } else {
                    match scan_entries(bytes, entries, entries.len()) {
                        Err(failure) => Err(failure),
                        Ok((root, _, files, _)) => if root is None {
                            Err(ArchiveFailure::Invalid)
                        } else {
                            Ok(files)
                        },
                    }
                },
            },
        }
    }
}

/// Text of the form `prefix` + quoted `text` + `suffix`.
pub(crate) fn quoted_message(prefix: &str, text: &str, suffix: &str) -> (message: String)
    ensures
        message@ == prefix@ + crate::text::debug_text(text@) + suffix@,
{
    let quoted = debug_quoted(text);
    let head = concat_str(prefix, quoted.as_str());
    concat_str(head.as_str(), suffix)
}

/// Text of the form `prefix` + decimal `n` + `suffix`.
fn number_message(prefix: &str, n: u64, suffix: &str) -> (message: String)
    ensures
        crate::text::utf8(message@) == crate::text::utf8(prefix@) + crate::release::decimal_bytes(n as nat)
            + crate::text::utf8(suffix@),
{
    let digits = decimal_text(n);
    let head = concat_str(prefix, digits.as_str());
    let message = concat_str(head.as_str(), suffix);
    proof {
        crate::text::lemma_utf8_concat(prefix@, digits@);
        crate::text::lemma_utf8_concat(head@, suffix@);
    }
    message
}

/// The exec state of an archive scan as its spec state.
pub open spec fn state_view(
    root: Option<String>,
    seen: TextMap<()>,
    files: TextMap<String>,
    expanded: u64,
) -> ArchiveState {
    (
        match root {
            Some(r) => Some(r@),
            None => None,
        },
        crate::capability_scan::set_view(seen),
        crate::capability_scan::text_map_view(files),
        expanded as int,
    )
}

/// Read one entry into the scan state.
fn scan_step(
    bytes: &[u8],
    index: usize,
    entry: &Result<(Vec<u8>, u64, bool), String>,
    root: &mut Option<String>,
    seen: &mut TextMap<()>,
    files: &mut TextMap<String>,
    expanded: &mut u64,
) -> (result: Result<(), ExtractError>)
    requires
        old(seen).wf(),
        old(files).wf(),
    ensures
        final(seen).wf(),
        final(files).wf(),
        match entry_step(
            bytes@,
            index as int,
            match *entry {
                Ok((name, size, is_dir)) => Ok((name@, size, is_dir)),
                Err(message) => Err(message@),
            },
            state_view(*old(root), *old(seen), *old(files), *old(expanded)),
        ) {
            Err(failure) => result matches Err(error) && failure_matches(failure, error),
            Ok(state) => result is Ok && state_view(*final(root), *final(seen), *final(files), *final(expanded)) == state,
        },
{
        let (raw, size, is_dir) = match entry {
            Ok((raw, size, is_dir)) => (raw, *size, *is_dir),
            Err(message) => return Err(ExtractError::Archive(message.clone())),
        };
        let name = match decode_utf8_text(raw.as_slice()) {
            Ok(name) => name,
            Err(message) => {
                let head = number_message("entry ", index as u64, " has a non-UTF-8 path: ");
                return Err(ExtractError::InvalidArchive(concat_str(head.as_str(), message.as_str())));
            },
        };
        let components = match validate_archive_path(name.as_str()) {
            Ok(components) => components,
            Err(error) => return Err(error),
        };
        let ghost parts = byte_views(components@);
        assert(parts.len() > 0);
        let top = components[0];
        assert(top@ == decode_utf8(parts[0]));
        if let Some(expected) = &*root {
            if !str_eq(expected.as_str(), top) {
                let head = quoted_message("entries use multiple top-level directories: ", expected.as_str(), " and ");
                let quoted = debug_quoted(top);
                return Err(ExtractError::InvalidArchive(concat_str(head.as_str(), quoted.as_str())));
            }
        }
        let normalized = join_from(&components, 0);
        assert(parts.skip(0) =~= parts);
        if seen.get(normalized.as_str()).is_some() {
            return Err(ExtractError::InvalidArchive(quoted_message("duplicate entry path ", normalized.as_str(), "")));
        }
        if size > MAX_ARCHIVE_FILE_BYTES {
            let head = quoted_message("entry ", normalized.as_str(), " expands to ");
            let middle = number_message(head.as_str(), size, " bytes; per-file limit is ");
            return Err(ExtractError::InvalidArchive(concat_str(middle.as_str(), "33554432")));
        }
        let total = match expanded.checked_add(size) {
            Some(total) => total,
            None => return Err(ExtractError::InvalidArchive("expanded size overflowed u64".to_owned())),
        };
        if total > MAX_ARCHIVE_EXPANDED_BYTES {
            return Err(ExtractError::InvalidArchive("entries expand to more than 268435456 bytes".to_owned()));
        }
        let ghost seen_before = crate::capability_scan::set_view(*seen);
        crate::capability_scan::set_insert(seen, normalized.clone());
        if root.is_none() {
            *root = Some(top.to_owned());
        }
        *expanded = total;
        let relative_count = components.len() - 1;
        let crates = "crates";
        proof {
            reveal_strlit("crates");
        }
        let skipped = is_dir || relative_count == 0 || !str_eq(components[1], crates) || !is_rust_source_name(
            components[components.len() - 1],
        );
        proof {
            let relative = parts.drop_first();
            if relative_count > 0 {
                assert(relative[0] == parts[1]);
                assert(parts[1] == components@[1].spec_bytes());
                crate::text::lemma_utf8_injective(components@[1]@, crates@);
                assert(relative.last() == components@[components@.len() - 1].spec_bytes());
            }
            assert(skipped == skipped_entry(is_dir, relative));
        }
        if !skipped {
            let path = join_from(&components, 1);
            assert(parts.skip(1) =~= parts.drop_first());
            let data = match read_zip_entry(bytes, index, size + 1) {
                Ok(data) => data,
                Err(EntryReadError::Archive(message)) => return Err(ExtractError::Archive(message)),
                Err(EntryReadError::Read(message)) => return Err(ExtractError::ArchiveRead(message)),
            };
            if data.len() as u64 != size {
                let head = quoted_message("entry ", normalized.as_str(), " declared ");
                let middle = number_message(head.as_str(), size, " bytes but yielded ");
                let length = decimal_text(data.len() as u64);
                return Err(ExtractError::InvalidArchive(concat_str(middle.as_str(), length.as_str())));
            }
            let source = match string_from_utf8(data) {
                Some(source) => source,
                None => return Err(ExtractError::InvalidArchiveUtf8 { path }),
            };
            if files.get(path.as_str()).is_some() {
                return Err(ExtractError::InvalidArchive(quoted_message("duplicate Rust source path ", path.as_str(), "")));
            }
            let ghost files_before = crate::capability_scan::text_map_view(*files);
            let ghost path_view = path@;
            let ghost source_view = source@;
            files.insert(path, source);
            assert(crate::capability_scan::text_map_view(*files) =~= files_before.insert(path_view, source_view));
        }
        assert(crate::capability_scan::set_view(*seen) == seen_before.insert(normalized@));
        Ok(())
}

/// Once a scan fails, reading more entries keeps that failure.
proof fn lemma_scan_failed(bytes: Seq<u8>, entries: Seq<Result<(Seq<u8>, u64, bool), Seq<char>>>, n: nat, m: nat)
    requires
        n <= m,
        scan_entries(bytes, entries, n) is Err,
    ensures
        scan_entries(bytes, entries, m) == scan_entries(bytes, entries, n),
    decreases m - n,
{
    if m > n {
        lemma_scan_failed(bytes, entries, n, (m - 1) as nat);
    }
}

/// Read every entry of a listed archive in order.
fn scan_archive(bytes: &[u8], entries: &Vec<Result<(Vec<u8>, u64, bool), String>>) -> (found: Result<
    (bool, TextMap<String>),
    ExtractError,
>)
    ensures
        match scan_entries(bytes@, listing_view(entries@), entries@.len()) {
            Err(failure) => found matches Err(error) && failure_matches(failure, error),
            Ok((root, _, files, _)) => found matches Ok((any, map)) && any == (root is Some) && map.wf()
                && crate::capability_scan::text_map_view(map) == files,
        },
{
    let ghost listed = listing_view(entries@);
    let mut root: Option<String> = None;
    let mut seen = crate::capability_scan::empty_set();
    let mut files: TextMap<String> = TextMap::new();
    let mut expanded: u64 = 0;
    proof {
        assert(crate::capability_scan::text_map_view(files) =~= Map::empty());
    }
    let mut index: usize = 0;
    while index < entries.len()
        invariant
            seen.wf(),
            files.wf(),
            listed == listing_view(entries@),
            index <= entries@.len(),
            scan_entries(bytes@, listed, index as nat) == Ok::<ArchiveState, ArchiveFailure>(
                state_view(root, seen, files, expanded),
            ),
        decreases entries@.len() - index,
    {
        assert(listed[index as int] == match entries@[index as int] {
            Ok((name, size, is_dir)) => Ok::<(Seq<u8>, u64, bool), Seq<char>>((name@, size, is_dir)),
            Err(message) => Err(message@),
        });
        match scan_step(bytes, index, &entries[index], &mut root, &mut seen, &mut files, &mut expanded) {
            Ok(()) => {},
            Err(error) => {
                proof {
                    lemma_scan_failed(bytes@, listed, (index + 1) as nat, entries@.len());
                }
                return Err(error);
            },
        }
        index = index + 1;
    }
    Ok((root.is_some(), files))
}

impl SourceBundle {
    /// Load Monty sources directly from GitHub-style ZIP bytes without
    /// extracting them: the archive is bounded in size and entry count, has one
    /// top-level directory, safe and unique entry paths and bounded expanded
    /// sizes, and every `.rs` file under its `crates/` directory is read as UTF-8.
    pub fn from_zip_bytes(bytes: &[u8]) -> (result: Result<SourceBundle, ExtractError>)
        ensures
            match archive_sources(bytes@) {
                Err(failure) => result matches Err(error) && failure_matches(failure, error),
                Ok(files) => {
                    &&& result is Ok <==> crate::extract::bundle_complete(files.dom())
                    &&& result matches Ok(bundle) ==> bundle.rust_files.wf()
                        && crate::capability_scan::text_map_view(bundle.rust_files) == files
                        && bundle.builtins@ == files[crate::extract::builtins_path(files.dom())]
                        && bundle.exceptions@ == files[crate::extract::exceptions_path(files.dom())]
                        && bundle.modules@ == files[crate::extract::MODULES_REL@]
                        && bundle.types@ == files[crate::extract::TYPES_REL@]
                        && bundle.intern@ == files[crate::extract::INTERN_REL@]
                    &&& result matches Ok(bundle) ==> crate::extract::loaded_from(bundle, files)
                    &&& result matches Err(error) ==> error is MissingSource
                },
            },
    {
        if bytes.len() > MAX_ARCHIVE_BYTES {
            let head = number_message("compressed input is ", bytes.len() as u64, " bytes; limit is ");
            return Err(ExtractError::InvalidArchive(concat_str(head.as_str(), "67108864")));
        }
        let declared = match standard_zip_entry_count(bytes) {
            Ok(declared) => declared,
            Err(error) => return Err(error),
        };
        let entries = match list_zip_entries(bytes) {
            Ok(entries) => entries,
            Err(message) => return Err(ExtractError::Archive(message)),
        };
        if entries.len() != declared {
            let head = number_message("central directory declares ", declared as u64, " entries but only ");
            let middle = number_message(head.as_str(), entries.len() as u64, " unique paths exist");
            return Err(ExtractError::InvalidArchive(concat_str(middle.as_str(), "; duplicate entry paths are not allowed")));
        }
        if entries.len() > MAX_ARCHIVE_ENTRIES {
            let head = number_message("archive contains ", entries.len() as u64, " entries; limit is ");
            return Err(ExtractError::InvalidArchive(concat_str(head.as_str(), "100000")));
        }
        let (any, files) = match scan_archive(bytes, &entries) {
            Ok(found) => found,
            Err(error) => return Err(error),
        };
        if !any {
            return Err(ExtractError::InvalidArchive("archive contains no entries".to_owned()));
        }
        proof {
            let keys = crate::capability_scan::text_map_view(files).dom();
            assert(files.view_map().dom() =~= keys);
            crate::extract::lemma_first_present_bounds(
                keys,
                seq!["crates/monty-types/src/builtins.rs"@, "crates/monty/src/builtins/mod.rs"@],
            );
            crate::extract::lemma_first_present_bounds(
                keys,
                seq!["crates/monty-types/src/exceptions.rs"@, "crates/monty/src/exception_private.rs"@],
            );
        }
        SourceBundle::from_rust_files(files)
    }
}

} // verus!
