//! Scanning Monty's Rust sources: delimiter matching that skips comments and
//! string literals, masking of feature-gated items, and pattern matches over
//! source text.

use vstd::prelude::*;
use vstd::string::StringSliceAdditionalSpecFns;
use vstd::utf8::*;
use vstd::string::StrSliceExecFns;

use crate::lines::{find_from, first_match_from, lemma_first_match_found};
use crate::extract::ExtractError;
use crate::ordered::TextMap;
use crate::lines::{lines, lines_of, trim, trimmed_line};
use crate::text::{
    split_on, has_prefix_at, starts_with_at, str_eq, find_byte, first_byte_from, lemma_ascii_is_boundary, lemma_boundary_after_ascii, push_range,
    str_range, string_from_valid_utf8, utf8,
};

verus! {

broadcast use vstd::utf8::encode_utf8_valid_utf8;

/// Where scanning resumes after a `//` comment whose text starts at `from`:
/// just past the next newline, or the end.
pub open spec fn line_comment_end(bytes: Seq<u8>, from: int) -> int {
    match first_byte_from(bytes, from, 0x0a) {
        Some(p) => p + 1,
        None => bytes.len() as int,
    }
}

/// Where scanning resumes after a `/*` comment whose text starts at `from`:
/// just past the next `*/`, or the end.
pub open spec fn block_comment_end(bytes: Seq<u8>, from: int) -> int {
    match first_match_from(bytes, from, seq![0x2au8, 0x2fu8]) {
        Some(p) => p + 2,
        None => bytes.len() as int,
    }
}

/// Where scanning resumes after a string literal whose contents start at `i`:
/// just past the closing quote, a backslash escaping the byte after it, or the end.
pub open spec fn string_end(bytes: Seq<u8>, i: int) -> int
    decreases bytes.len() - i,
{
    if i < 0 || i >= bytes.len() {
        bytes.len() as int
    } else if bytes[i] == 0x5c {
        if i + 2 >= bytes.len() {
            bytes.len() as int
        } else {
            string_end(bytes, i + 2)
        }
    } else if bytes[i] == 0x22 {
        i + 1
    } else {
        string_end(bytes, i + 1)
    }
}

pub proof fn lemma_comment_ends(bytes: Seq<u8>, from: int)
    requires
        0 <= from <= bytes.len(),
    ensures
        from < line_comment_end(bytes, from) <= bytes.len() || (from == bytes.len()
            && line_comment_end(bytes, from) == bytes.len()),
        from <= block_comment_end(bytes, from) <= bytes.len(),
        from < bytes.len() ==> from < string_end(bytes, from) <= bytes.len(),
        string_end(bytes, from) <= bytes.len(),
    decreases bytes.len() - from,
{
    crate::text::lemma_first_byte_found(bytes, from, 0x0a);
    lemma_first_match_found(bytes, from, seq![0x2au8, 0x2fu8]);
    if from < bytes.len() {
        if bytes[from] == 0x5c && from + 2 < bytes.len() {
            lemma_comment_ends(bytes, from + 2);
        } else if bytes[from] != 0x22 && bytes[from] != 0x5c {
            lemma_comment_ends(bytes, from + 1);
        }
    }
}

/// Whether `bytes` has `a` then `b` at `index`.
pub open spec fn pair_at(bytes: Seq<u8>, index: int, a: u8, b: u8) -> bool {
    0 <= index && index + 2 <= bytes.len() && bytes[index] == a && bytes[index + 1] == b
}

/// Scan from `index` at nesting `depth` for the delimiter that closes the
/// outermost opening, skipping `//` and `/* */` comments and string literals.
pub open spec fn scan_match(bytes: Seq<u8>, index: int, depth: nat, opening: u8, closing: u8) -> Option<int>
    decreases bytes.len() - index,
{
    if index < 0 || index >= bytes.len() {
        None
    } else if pair_at(bytes, index, 0x2f, 0x2f) {
        proof {
            lemma_comment_ends(bytes, index + 2);
        }
        scan_match(bytes, line_comment_end(bytes, index + 2), depth, opening, closing)
    } else if pair_at(bytes, index, 0x2f, 0x2a) {
        proof {
            lemma_comment_ends(bytes, index + 2);
        }
        scan_match(bytes, block_comment_end(bytes, index + 2), depth, opening, closing)
    } else if bytes[index] == 0x22 {
        proof {
            lemma_comment_ends(bytes, index + 1);
        }
        scan_match(bytes, string_end(bytes, index + 1), depth, opening, closing)
    } else if bytes[index] == opening {
        scan_match(bytes, index + 1, depth + 1, opening, closing)
    } else if bytes[index] == closing {
        if depth <= 1 {
            Some(index)
        } else {
            scan_match(bytes, index + 1, (depth - 1) as nat, opening, closing)
        }
    } else {
        scan_match(bytes, index + 1, depth, opening, closing)
    }
}

/// The index of the delimiter that closes the `opening` at `start`.
pub open spec fn matching_spec(bytes: Seq<u8>, start: int, opening: u8, closing: u8) -> Option<int> {
    if 0 <= start < bytes.len() && bytes[start] == opening {
        scan_match(bytes, start, 0, opening, closing)
    } else {
        None
    }
}

pub proof fn lemma_scan_bounds(bytes: Seq<u8>, index: int, depth: nat, opening: u8, closing: u8)
    ensures
        scan_match(bytes, index, depth, opening, closing) matches Some(i) ==> index <= i < bytes.len()
            && bytes[i] == closing,
    decreases bytes.len() - index,
{
    if 0 <= index < bytes.len() {
        if pair_at(bytes, index, 0x2f, 0x2f) {
            lemma_comment_ends(bytes, index + 2);
            lemma_scan_bounds(bytes, line_comment_end(bytes, index + 2), depth, opening, closing);
        } else if pair_at(bytes, index, 0x2f, 0x2a) {
            lemma_comment_ends(bytes, index + 2);
            lemma_scan_bounds(bytes, block_comment_end(bytes, index + 2), depth, opening, closing);
        } else if bytes[index] == 0x22 {
            lemma_comment_ends(bytes, index + 1);
            lemma_scan_bounds(bytes, string_end(bytes, index + 1), depth, opening, closing);
        } else if bytes[index] == opening {
            lemma_scan_bounds(bytes, index + 1, depth + 1, opening, closing);
        } else if bytes[index] == closing {
            if depth > 1 {
                lemma_scan_bounds(bytes, index + 1, (depth - 1) as nat, opening, closing);
            }
        } else {
            lemma_scan_bounds(bytes, index + 1, depth, opening, closing);
        }
    }
}

fn skip_string(bytes: &[u8], from: usize) -> (end: usize)
    requires
        from <= bytes@.len(),
    ensures
        end == string_end(bytes@, from as int),
{
    let mut index = from;
    while index < bytes.len()
        invariant
            from <= index <= bytes@.len(),
            string_end(bytes@, from as int) == string_end(bytes@, index as int),
        decreases bytes@.len() - index,
    {
        if bytes[index] == 0x5c {
            if bytes.len() - index <= 2 {
                return bytes.len();
            }
            index = index + 2;
        } else if bytes[index] == 0x22 {
            return index + 1;
        } else {
            index = index + 1;
        }
    }
    bytes.len()
}

fn skip_block_comment(bytes: &[u8], from: usize) -> (end: usize)
    requires
        from <= bytes@.len(),
    ensures
        end == block_comment_end(bytes@, from as int),
{
    let closer: [u8; 2] = [0x2a, 0x2f];
    assert(closer@ =~= seq![0x2au8, 0x2fu8]);
    proof {
        lemma_first_match_found(bytes@, from as int, seq![0x2au8, 0x2fu8]);
    }
    let needle = closer.as_slice();
    assert(needle@ == seq![0x2au8, 0x2fu8]);
    match find_from(bytes, from, needle) {
        Some(p) => {
            let length = bytes.len();
            assert(p + 2 <= length);
            p + 2
        },
        None => bytes.len(),
    }
}

fn skip_line_comment(bytes: &[u8], from: usize) -> (end: usize)
    requires
        from <= bytes@.len(),
    ensures
        end == line_comment_end(bytes@, from as int),
{
    match find_byte(bytes, from, 0x0a) {
        Some(p) => {
            let length = bytes.len();
            assert(p < length);
            p + 1
        },
        None => bytes.len(),
    }
}

/// Whether `bytes` has `a` then `b` at `index`.
fn has_pair(bytes: &[u8], index: usize, a: u8, b: u8) -> (found: bool)
    ensures
        found == pair_at(bytes@, index as int, a, b),
{
    index < bytes.len() && bytes.len() - index >= 2 && bytes[index] == a && bytes[index + 1] == b
}

/// The index of the delimiter that closes the `opening` byte at `start`,
/// skipping comments and string literals; `None` when `start` does not hold
/// `opening` or the source ends first.
pub fn matching_delimiter(source: &str, start: usize, opening: u8, closing: u8) -> (end: Option<usize>)
    ensures
        match end {
            Some(i) => matching_spec(source.spec_bytes(), start as int, opening, closing) == Some(i as int),
            None => matching_spec(source.spec_bytes(), start as int, opening, closing) is None,
        },
{
    let bytes = source.as_bytes();
    if start >= bytes.len() || bytes[start] != opening {
        return None;
    }
    let ghost all = bytes@;
    let mut depth: usize = 0;
    let mut index = start;
    while index < bytes.len()
        invariant
            bytes@ == all,
            all == source.spec_bytes(),
            start < all.len(),
            all[start as int] == opening,
            start <= index <= all.len(),
            depth <= index - start,
            scan_match(all, start as int, 0, opening, closing) == scan_match(
                all,
                index as int,
                depth as nat,
                opening,
                closing,
            ),
        decreases all.len() - index,
    {
        proof {
            lemma_comment_ends(all, index as int);
        }
        if has_pair(bytes, index, 0x2f, 0x2f) {
            proof {
                lemma_comment_ends(all, index + 2);
            }
            index = skip_line_comment(bytes, index + 2);
            continue;
        }
        if has_pair(bytes, index, 0x2f, 0x2a) {
            proof {
                lemma_comment_ends(all, index + 2);
            }
            index = skip_block_comment(bytes, index + 2);
            continue;
        }
        if bytes[index] == 0x22 {
            proof {
                lemma_comment_ends(all, index + 1);
            }
            index = skip_string(bytes, index + 1);
            continue;
        }
        if bytes[index] == opening {
            depth = depth + 1;
        } else if bytes[index] == closing {
            if depth <= 1 {
                return Some(index);
            }
            depth = depth - 1;
        }
        index = index + 1;
    }
    None
}

/// Whether byte `index` of `text` starts a character (or is its end).
pub fn char_boundary_at(text: &str, index: usize) -> (boundary: bool)
    ensures
        boundary == is_char_boundary(text.spec_bytes(), index as int),
{
    let bytes = text.as_bytes();
    proof {
        is_char_boundary_start_end_of_seq(text.spec_bytes());
    }
    if index == 0 || index == bytes.len() {
        return true;
    }
    if index > bytes.len() {
        return false;
    }
    proof {
        is_char_boundary_iff_not_is_continuation_byte(text.spec_bytes(), index as int);
    }
    !(0x80 <= bytes[index] && bytes[index] <= 0xbf)
}

/// The text strictly between the `opening` at `start` and the delimiter that closes it.
pub fn delimited_contents(source: &str, start: usize, opening: u8, closing: u8) -> (contents: Option<
    &str,
>)
    ensures
        match contents {
            Some(piece) => matching_spec(source.spec_bytes(), start as int, opening, closing) matches Some(end)
                && start + 1 <= end && is_char_boundary(source.spec_bytes(), start + 1)
                && is_char_boundary(source.spec_bytes(), end)
                && piece.spec_bytes() == source.spec_bytes().subrange(start + 1, end),
            None => match matching_spec(source.spec_bytes(), start as int, opening, closing) {
                Some(end) => !(start + 1 <= end && is_char_boundary(source.spec_bytes(), start + 1)
                    && is_char_boundary(source.spec_bytes(), end)),
                None => true,
            },
        },
{
    let end = match matching_delimiter(source, start, opening, closing) {
        Some(end) => end,
        None => return None,
    };
    proof {
        lemma_scan_bounds(source.spec_bytes(), start as int, 0, opening, closing);
    }
    let length = source.as_bytes().len();
    assert(start < length);
    let first = start + 1;
    if first > end || !char_boundary_at(source, first) || !char_boundary_at(source, end) {
        return None;
    }
    Some(str_range(source, first, end))
}

/// The message `regex::Regex::new` gives for `pattern`; `None` when it compiles.
pub uninterp spec fn regex_build_error(pattern: Seq<char>) -> Option<Seq<char>>;

/// The successive non-overlapping matches of `pattern` in `haystack`, each
/// given by the byte spans of its capture groups in pattern order: group 0 is
/// the whole match, and `None` stands for a group that took no part.
pub uninterp spec fn regex_captures(pattern: Seq<char>, haystack: Seq<char>) -> Seq<
    Seq<Option<(usize, usize)>>,
>;

/// The groups of each match as sequences.
pub open spec fn capture_views(captures: Seq<Vec<Option<(usize, usize)>>>) -> Seq<
    Seq<Option<(usize, usize)>>,
> {
    captures.map_values(|groups: Vec<Option<(usize, usize)>>| groups@)
}

/// Every match has its whole-match group, and every span is ordered, inside
/// `bytes`, and on character boundaries.
pub open spec fn spans_well_placed(captures: Seq<Seq<Option<(usize, usize)>>>, bytes: Seq<u8>) -> bool {
    forall|m: int|
        0 <= m < captures.len() ==> {
            &&& (#[trigger] captures[m]).len() > 0
            &&& captures[m][0] is Some
            &&& forall|g: int|
                0 <= g < captures[m].len() ==> match #[trigger] captures[m][g] {
                    Some((start, end)) => start <= end <= bytes.len() && is_char_boundary(
                        bytes,
                        start as int,
                    ) && is_char_boundary(bytes, end as int),
                    None => true,
                }
        }
}

/// `regex::Regex::new(pattern)` followed by `captures_iter(haystack)`, each
/// match turned into the byte spans of its groups. The regex crate documents
/// that the first group of every match is present, that `start <= end`, and
/// that both offsets fall on UTF-8 boundaries of the haystack; which spans
/// match is named by `regex_captures`, and the compile error by `regex_build_error`.
#[verifier::external_body]
pub(crate) fn captures_all(pattern: &str, haystack: &str) -> (found: Result<
    Vec<Vec<Option<(usize, usize)>>>,
    String,
>)
    ensures
        found is Err <==> regex_build_error(pattern@) is Some,
        found matches Err(message) ==> regex_build_error(pattern@) == Some(message@),
        found matches Ok(captures) ==> capture_views(captures@) == regex_captures(
            pattern@,
            haystack@,
        ),
        found matches Ok(captures) ==> spans_well_placed(capture_views(captures@), utf8(haystack@)),
{
    match regex::Regex::new(pattern) {
        Ok(compiled) => Ok(
            compiled.captures_iter(haystack).map(
                |groups| groups.iter().map(|group| group.map(|m| (m.start(), m.end()))).collect(),
            ).collect(),
        ),
        Err(error) => Err(error.to_string()),
    }
}

/// The pattern of a `#[cfg(feature = ...)]` attribute.
pub const FEATURE_GATE: &'static str = r"#\[cfg\s*\(\s*feature\s*=\s*[^)]+\)\]";

/// The bytes `u8::is_ascii_whitespace` accepts.
pub open spec fn ascii_whitespace(byte: u8) -> bool {
    byte == 0x20 || byte == 0x09 || byte == 0x0a || byte == 0x0c || byte == 0x0d
}

/// The first index at or after `i` that does not hold ASCII whitespace.
pub open spec fn skip_whitespace(bytes: Seq<u8>, i: int) -> int
    decreases bytes.len() - i,
{
    if 0 <= i < bytes.len() && ascii_whitespace(bytes[i]) {
        skip_whitespace(bytes, i + 1)
    } else {
        i
    }
}

pub proof fn lemma_skip_whitespace(bytes: Seq<u8>, i: int)
    ensures
        i <= skip_whitespace(bytes, i),
        0 <= i <= bytes.len() ==> skip_whitespace(bytes, i) <= bytes.len(),
    decreases bytes.len() - i,
{
    if 0 <= i < bytes.len() && ascii_whitespace(bytes[i]) {
        lemma_skip_whitespace(bytes, i + 1);
    }
}

/// The first index at or after `i` past further attributes `#[...]` and the
/// whitespace after each of them.
pub open spec fn skip_attributes(bytes: Seq<u8>, i: int) -> int
    decreases bytes.len() - i,
{
    if pair_at(bytes, i, 0x23, 0x5b) {
        match matching_spec(bytes, i + 1, 0x5b, 0x5d) {
            Some(end) => {
                proof {
                    lemma_scan_bounds(bytes, i + 1, 0, 0x5b, 0x5d);
                    lemma_skip_whitespace(bytes, end + 1);
                }
                skip_attributes(bytes, skip_whitespace(bytes, end + 1))
            },
            None => i,
        }
    } else {
        i
    }
}

proof fn lemma_skip_attributes(bytes: Seq<u8>, i: int)
    ensures
        i <= skip_attributes(bytes, i),
        0 <= i <= bytes.len() ==> skip_attributes(bytes, i) <= bytes.len(),
    decreases bytes.len() - i,
{
    if pair_at(bytes, i, 0x23, 0x5b) {
        lemma_scan_bounds(bytes, i + 1, 0, 0x5b, 0x5d);
        if let Some(end) = matching_spec(bytes, i + 1, 0x5b, 0x5d) {
            lemma_skip_whitespace(bytes, end + 1);
            lemma_skip_attributes(bytes, skip_whitespace(bytes, end + 1));
        }
    }
}

/// The end of the item that starts at `index`: just past the `}` that closes
/// its first brace, or past the first `;` or `,` outside all brackets, or the
/// end of the source; comments and string literals are skipped.
pub open spec fn item_end(bytes: Seq<u8>, index: int, paren: nat, bracket: nat, brace: nat) -> int
    decreases bytes.len() - index,
{
    if index < 0 || index >= bytes.len() {
        bytes.len() as int
    } else if pair_at(bytes, index, 0x2f, 0x2f) {
        proof {
            lemma_comment_ends(bytes, index + 2);
        }
        item_end(bytes, line_comment_end(bytes, index + 2), paren, bracket, brace)
    } else if pair_at(bytes, index, 0x2f, 0x2a) {
        proof {
            lemma_comment_ends(bytes, index + 2);
        }
        item_end(bytes, block_comment_end(bytes, index + 2), paren, bracket, brace)
    } else if bytes[index] == 0x22 {
        proof {
            lemma_comment_ends(bytes, index + 1);
        }
        item_end(bytes, string_end(bytes, index + 1), paren, bracket, brace)
    } else {
        let b = bytes[index];
        if b == 0x28 {
            item_end(bytes, index + 1, paren + 1, bracket, brace)
        } else if b == 0x29 {
            item_end(bytes, index + 1, if paren > 0 { (paren - 1) as nat } else { 0 }, bracket, brace)
        } else if b == 0x5b {
            item_end(bytes, index + 1, paren, bracket + 1, brace)
        } else if b == 0x5d {
            item_end(bytes, index + 1, paren, if bracket > 0 { (bracket - 1) as nat } else { 0 }, brace)
        } else if b == 0x7b {
            item_end(bytes, index + 1, paren, bracket, brace + 1)
        } else if b == 0x7d && brace == 1 {
            index + 1
        } else if b == 0x7d {
            item_end(bytes, index + 1, paren, bracket, if brace > 0 { (brace - 1) as nat } else { 0 })
        } else if (b == 0x3b || b == 0x2c) && paren == 0 && bracket == 0 && brace == 0 {
            index + 1
        } else {
            item_end(bytes, index + 1, paren, bracket, brace)
        }
    }
}

proof fn lemma_item_end(bytes: Seq<u8>, index: int, paren: nat, bracket: nat, brace: nat)
    requires
        0 <= index,
    ensures
        item_end(bytes, index, paren, bracket, brace) == bytes.len() || (index < item_end(
            bytes,
            index,
            paren,
            bracket,
            brace,
        ) <= bytes.len() && bytes[item_end(bytes, index, paren, bracket, brace) - 1] < 0x80),
        index <= bytes.len() ==> index <= item_end(bytes, index, paren, bracket, brace),
    decreases bytes.len() - index,
{
    if 0 <= index < bytes.len() {
        if pair_at(bytes, index, 0x2f, 0x2f) {
            lemma_comment_ends(bytes, index + 2);
            lemma_item_end(bytes, line_comment_end(bytes, index + 2), paren, bracket, brace);
        } else if pair_at(bytes, index, 0x2f, 0x2a) {
            lemma_comment_ends(bytes, index + 2);
            lemma_item_end(bytes, block_comment_end(bytes, index + 2), paren, bracket, brace);
        } else if bytes[index] == 0x22 {
            lemma_comment_ends(bytes, index + 1);
            lemma_item_end(bytes, string_end(bytes, index + 1), paren, bracket, brace);
        } else {
            let b = bytes[index];
            if b == 0x28 {
                lemma_item_end(bytes, index + 1, paren + 1, bracket, brace);
            } else if b == 0x29 {
                lemma_item_end(bytes, index + 1, if paren > 0 { (paren - 1) as nat } else { 0 }, bracket, brace);
            } else if b == 0x5b {
                lemma_item_end(bytes, index + 1, paren, bracket + 1, brace);
            } else if b == 0x5d {
                lemma_item_end(bytes, index + 1, paren, if bracket > 0 { (bracket - 1) as nat } else { 0 }, brace);
            } else if b == 0x7b {
                lemma_item_end(bytes, index + 1, paren, bracket, brace + 1);
            } else if b == 0x7d && brace == 1 {
            } else if b == 0x7d {
                lemma_item_end(bytes, index + 1, paren, bracket, if brace > 0 { (brace - 1) as nat } else { 0 });
            } else if (b == 0x3b || b == 0x2c) && paren == 0 && bracket == 0 && brace == 0 {
            } else {
                lemma_item_end(bytes, index + 1, paren, bracket, brace);
            }
        }
    }
}

/// Where the item gated by an attribute that ends at `match_end` ends.
pub open spec fn gated_item_end(bytes: Seq<u8>, match_end: int) -> int {
    item_end(bytes, skip_attributes(bytes, skip_whitespace(bytes, match_end)), 0, 0, 0)
}

/// `bytes` with every byte in `start..end` other than a newline turned into a space.
pub open spec fn blank(bytes: Seq<u8>, start: int, end: int) -> Seq<u8> {
    Seq::new(
        bytes.len(),
        |i: int|
            if start <= i < end && bytes[i] != 0x0a {
                0x20u8
            } else {
                bytes[i]
            },
    )
}

/// `bytes` after blanking, match by match, each gate attribute and the item it gates.
pub open spec fn masked_bytes(bytes: Seq<u8>, matches: Seq<Seq<Option<(usize, usize)>>>) -> Seq<u8>
    decreases matches.len(),
{
    if matches.len() == 0 {
        bytes
    } else {
        let earlier = masked_bytes(bytes, matches.drop_last());
        match matches.last()[0] {
            Some((start, end)) => blank(earlier, start as int, gated_item_end(bytes, end as int)),
            None => earlier,
        }
    }
}

/// Masking keeps the text's length and every newline where it was, so line
/// numbers survive; a byte it changes becomes a space.
pub proof fn lemma_masking_keeps_lines(bytes: Seq<u8>, matches: Seq<Seq<Option<(usize, usize)>>>)
    ensures
        masked_bytes(bytes, matches).len() == bytes.len(),
        forall|i: int| 0 <= i < bytes.len() ==> (#[trigger] masked_bytes(bytes, matches)[i] == 0x0a) == (bytes[i] == 0x0a),
        forall|i: int|
            0 <= i < bytes.len() ==> #[trigger] masked_bytes(bytes, matches)[i] == bytes[i] || masked_bytes(
                bytes,
                matches,
            )[i] == 0x20,
    decreases matches.len(),
{
    if matches.len() > 0 {
        lemma_masking_keeps_lines(bytes, matches.drop_last());
    }
}

pub proof fn lemma_ascii_valid(bytes: Seq<u8>)
    requires
        forall|i: int| 0 <= i < bytes.len() ==> #[trigger] bytes[i] < 0x80,
    ensures
        valid_utf8(bytes),
{
    assert(bytes.subrange(0, 0) =~= Seq::<u8>::empty());
    assert(valid_utf8(Seq::<u8>::empty()));
    assert forall|i: int| 0 <= 0 <= i < bytes.len() <= bytes.len() implies #[trigger] is_leading_byte_width_1(bytes[i]) by {
    }
    partial_valid_utf8_extend_ascii_block(bytes, 0, bytes.len() as int);
    assert(bytes.subrange(0, bytes.len() as int) =~= bytes);
}

proof fn lemma_blank_valid(bytes: Seq<u8>, start: int, end: int)
    requires
        valid_utf8(bytes),
        0 <= start <= end <= bytes.len(),
        is_char_boundary(bytes, start),
        is_char_boundary(bytes, end),
    ensures
        valid_utf8(blank(bytes, start, end)),
{
    let out = blank(bytes, start, end);
    valid_utf8_split(bytes, start);
    valid_utf8_split(bytes, end);
    let middle = out.subrange(start, end);
    assert forall|i: int| 0 <= i < middle.len() implies #[trigger] middle[i] < 0x80 by {
        assert(middle[i] == out[start + i]);
    }
    lemma_ascii_valid(middle);
    assert(out =~= bytes.subrange(0, start) + middle + bytes.subrange(end, bytes.len() as int));
    valid_utf8_concat(bytes.subrange(0, start), middle);
    valid_utf8_concat(bytes.subrange(0, start) + middle, bytes.subrange(end, bytes.len() as int));
}

/// A position that starts a character in `bytes` still does after blanking.
proof fn lemma_blank_boundary(bytes: Seq<u8>, start: int, end: int, index: int)
    requires
        valid_utf8(bytes),
        0 <= start <= end <= bytes.len(),
        is_char_boundary(bytes, start),
        is_char_boundary(bytes, end),
        is_char_boundary(bytes, index),
        0 <= index <= bytes.len(),
    ensures
        is_char_boundary(blank(bytes, start, end), index),
{
    lemma_blank_valid(bytes, start, end);
    let out = blank(bytes, start, end);
    is_char_boundary_start_end_of_seq(out);
    if 0 < index < bytes.len() {
        is_char_boundary_iff_not_is_continuation_byte(bytes, index);
        is_char_boundary_iff_not_is_continuation_byte(out, index);
    }
}

fn skip_whitespace_at(bytes: &[u8], from: usize) -> (end: usize)
    requires
        from <= bytes@.len(),
    ensures
        end == skip_whitespace(bytes@, from as int),
{
    let mut i = from;
    while i < bytes.len() && (bytes[i] == 0x20 || bytes[i] == 0x09 || bytes[i] == 0x0a || bytes[i]
        == 0x0c || bytes[i] == 0x0d)
        invariant
            from <= i <= bytes@.len(),
            skip_whitespace(bytes@, from as int) == skip_whitespace(bytes@, i as int),
        decreases bytes@.len() - i,
    {
        i = i + 1;
    }
    i
}

fn skip_attributes_at(source: &str, from: usize) -> (end: usize)
    requires
        from <= source.spec_bytes().len(),
    ensures
        end == skip_attributes(source.spec_bytes(), from as int),
{
    let bytes = source.as_bytes();
    let length = bytes.len();
    let mut i = from;
    loop
        invariant
            bytes@ == source.spec_bytes(),
            length == bytes@.len(),
            from <= i <= bytes@.len(),
            skip_attributes(bytes@, from as int) == skip_attributes(bytes@, i as int),
        decreases bytes@.len() - i,
    {
        if !has_pair(bytes, i, 0x23, 0x5b) {
            return i;
        }
        assert(i + 2 <= length);
        match matching_delimiter(source, i + 1, 0x5b, 0x5d) {
            Some(end) => {
                proof {
                    lemma_scan_bounds(bytes@, i + 1, 0, 0x5b, 0x5d);
                    lemma_skip_whitespace(bytes@, end + 1);
                }
                assert(end < length);
                i = skip_whitespace_at(bytes, end + 1);
            },
            None => return i,
        }
    }
}

fn item_end_at(bytes: &[u8], from: usize) -> (end: usize)
    requires
        from <= bytes@.len(),
    ensures
        end == item_end(bytes@, from as int, 0, 0, 0),
{
    let mut index = from;
    let mut paren: usize = 0;
    let mut bracket: usize = 0;
    let mut brace: usize = 0;
    while index < bytes.len()
        invariant
            from <= index <= bytes@.len(),
            paren <= index - from,
            bracket <= index - from,
            brace <= index - from,
            item_end(bytes@, from as int, 0, 0, 0) == item_end(
                bytes@,
                index as int,
                paren as nat,
                bracket as nat,
                brace as nat,
            ),
        decreases bytes@.len() - index,
    {
        if has_pair(bytes, index, 0x2f, 0x2f) {
            proof {
                lemma_comment_ends(bytes@, index + 2);
            }
            index = skip_line_comment(bytes, index + 2);
            continue;
        }
        if has_pair(bytes, index, 0x2f, 0x2a) {
            proof {
                lemma_comment_ends(bytes@, index + 2);
            }
            index = skip_block_comment(bytes, index + 2);
            continue;
        }
        if bytes[index] == 0x22 {
            proof {
                lemma_comment_ends(bytes@, index + 1);
            }
            index = skip_string(bytes, index + 1);
            continue;
        }
        let b = bytes[index];
        if b == 0x28 {
            paren = paren + 1;
        } else if b == 0x29 {
            if paren > 0 {
                paren = paren - 1;
            }
        } else if b == 0x5b {
            bracket = bracket + 1;
        } else if b == 0x5d {
            if bracket > 0 {
                bracket = bracket - 1;
            }
        } else if b == 0x7b {
            brace = brace + 1;
        } else if b == 0x7d && brace == 1 {
            return index + 1;
        } else if b == 0x7d {
            if brace > 0 {
                brace = brace - 1;
            }
        } else if (b == 0x3b || b == 0x2c) && paren == 0 && bracket == 0 && brace == 0 {
            return index + 1;
        }
        index = index + 1;
    }
    bytes.len()
}

/// Blank every `#[cfg(feature = ...)]` attribute and the item it gates, keeping
/// newlines so that line numbers survive.
pub fn without_feature_gated_items(source: &str) -> (masked: Result<String, ExtractError>)
    ensures
        match masked {
            Ok(text) => regex_build_error(FEATURE_GATE@) is None && utf8(text@) == masked_bytes(
                utf8(source@),
                regex_captures(FEATURE_GATE@, source@),
            ),
            Err(error) => regex_build_error(FEATURE_GATE@) matches Some(message)
                && error matches ExtractError::InvalidPattern { pattern, message: reported }
                && pattern@ == FEATURE_GATE@ && reported@ == message,
        },
{
    let found = match captures_all(FEATURE_GATE, source) {
        Ok(found) => found,
        Err(message) => {
            return Err(ExtractError::InvalidPattern { pattern: FEATURE_GATE.to_owned(), message });
        },
    };
    let ghost captures = capture_views(found@);
    let bytes = source.as_bytes();
    let ghost original = bytes@;
    let mut masked: Vec<u8> = Vec::new();
    push_range(&mut masked, bytes, 0, bytes.len());
    assert(masked@ =~= original);
    assert(captures.take(0) =~= Seq::<Seq<Option<(usize, usize)>>>::empty());
    let mut m: usize = 0;
    while m < found.len()
        invariant
            bytes@ == original,
            original == source.spec_bytes(),
            captures == capture_views(found@),
            spans_well_placed(captures, original),
            m <= found@.len(),
            masked@.len() == original.len(),
            masked@ == masked_bytes(original, captures.take(m as int)),
            valid_utf8(masked@),
            forall|k: int| #[trigger]
                is_char_boundary(original, k) ==> is_char_boundary(masked@, k),
        decreases found@.len() - m,
    {
        let groups = &found[m];
        assert(captures[m as int] == groups@);
        assert(groups@.len() > 0);
        let (start, end) = match groups[0] {
            Some(span) => span,
            None => {
                assert(false);
                (0, 0)
            },
        };
        assert(start <= end <= original.len());
        proof {
            lemma_skip_whitespace(original, end as int);
            lemma_skip_attributes(original, skip_whitespace(original, end as int));
        }
        let item_start = skip_attributes_at(source, skip_whitespace_at(bytes, end));
        let stop = item_end_at(bytes, item_start);
        proof {
            lemma_item_end(original, item_start as int, 0, 0, 0);
            is_char_boundary_start_end_of_seq(original);
            if stop < original.len() {
                lemma_ascii_is_boundary(original, stop - 1);
                lemma_boundary_after_ascii(original, stop - 1);
            }
        }
        let ghost before = masked@;
        let mut i = start;
        while i < stop
            invariant
                start <= i <= stop <= before.len(),
                masked@.len() == before.len(),
                forall|k: int| 0 <= k < i ==> #[trigger] masked@[k] == blank(before, start as int, stop as int)[k],
                forall|k: int| i <= k < before.len() ==> #[trigger] masked@[k] == before[k],
                forall|k: int| 0 <= k < start ==> #[trigger] masked@[k] == before[k],
            decreases stop - i,
        {
            if masked[i] != 0x0a {
                masked.set(i, 0x20);
            }
            i = i + 1;
        }
        proof {
            assert(masked@ =~= blank(before, start as int, stop as int));
            assert(captures.take(m + 1).drop_last() =~= captures.take(m as int));
            assert(captures.take(m + 1).last() == captures[m as int]);
            lemma_blank_valid(before, start as int, stop as int);
            assert forall|k: int| #[trigger]
                is_char_boundary(original, k) implies is_char_boundary(masked@, k) by {
                if 0 <= k <= original.len() {
                    lemma_blank_boundary(before, start as int, stop as int, k);
                }
            }
        }
        m = m + 1;
    }
    assert(captures.take(found@.len() as int) =~= captures);
    Ok(string_from_valid_utf8(masked))
}

/// The byte span of group `g` of one match, when the group took part.
pub open spec fn group_span(groups: Seq<Option<(usize, usize)>>, g: int) -> Option<(int, int)> {
    if 0 <= g < groups.len() {
        match groups[g] {
            Some((start, end)) => Some((start as int, end as int)),
            None => None,
        }
    } else {
        None
    }
}

/// The bytes group `g` of one match covers.
pub open spec fn group_bytes(bytes: Seq<u8>, groups: Seq<Option<(usize, usize)>>, g: int) -> Option<Seq<u8>> {
    match group_span(groups, g) {
        Some((start, end)) => Some(bytes.subrange(start, end)),
        None => None,
    }
}

/// The text strictly inside the delimiters that open at `start`, when they close
/// and both ends fall on character boundaries.
pub open spec fn delimited_spec(bytes: Seq<u8>, start: int, opening: u8, closing: u8) -> Option<Seq<u8>> {
    match matching_spec(bytes, start, opening, closing) {
        Some(end) => if start + 1 <= end && is_char_boundary(bytes, start + 1) && is_char_boundary(
            bytes,
            end,
        ) {
            Some(bytes.subrange(start + 1, end))
        } else {
            None
        },
        None => None,
    }
}

/// Every match of `pattern` in `text`, or the pattern's compile error.
pub fn captures_of(pattern: &'static str, text: &str) -> (found: Result<
    Vec<Vec<Option<(usize, usize)>>>,
    ExtractError,
>)
    ensures
        match found {
            Ok(captures) => regex_build_error(pattern@) is None && capture_views(captures@)
                == regex_captures(pattern@, text@) && spans_well_placed(
                capture_views(captures@),
                utf8(text@),
            ),
            Err(error) => regex_build_error(pattern@) matches Some(message)
                && error matches ExtractError::InvalidPattern { pattern: reported, message: text }
                && reported@ == pattern@ && text@ == message,
        },
{
    match captures_all(pattern, text) {
        Ok(captures) => Ok(captures),
        Err(message) => Err(ExtractError::InvalidPattern { pattern: pattern.to_owned(), message }),
    }
}

/// The text of group `g` of one well-placed match.
pub fn group_text<'a>(text: &'a str, groups: &Vec<Option<(usize, usize)>>, g: usize) -> (piece: Option<&'a str>)
    requires
        forall|k: int|
            0 <= k < groups@.len() ==> match #[trigger] groups@[k] {
                Some((start, end)) => start <= end <= utf8(text@).len() && is_char_boundary(
                    utf8(text@),
                    start as int,
                ) && is_char_boundary(utf8(text@), end as int),
                None => true,
            },
    ensures
        match piece {
            Some(p) => group_bytes(utf8(text@), groups@, g as int) == Some(p.spec_bytes()),
            None => group_bytes(utf8(text@), groups@, g as int) is None,
        },
{
    if g >= groups.len() {
        return None;
    }
    match groups[g] {
        Some((start, end)) => Some(str_range(text, start, end)),
        None => None,
    }
}

/// The contents of the delimiters opening at `start`.
pub fn delimited_at<'a>(source: &'a str, start: usize, opening: u8, closing: u8) -> (contents: Option<&'a str>)
    ensures
        match contents {
            Some(p) => delimited_spec(source.spec_bytes(), start as int, opening, closing) == Some(
                p.spec_bytes(),
            ),
            None => delimited_spec(source.spec_bytes(), start as int, opening, closing) is None,
        },
{
    delimited_contents(source, start, opening, closing)
}

/// The pattern of a function header, capturing the function's name.
pub const FUNCTION_HEADER: &'static str = r"\bfn\s+([A-Za-z_]\w*)\b";

/// The name and body of the function whose header one match found: the body is
/// the braced block after the parenthesized parameters that follow the header.
pub open spec fn function_of(bytes: Seq<u8>, groups: Seq<Option<(usize, usize)>>) -> Option<(Seq<u8>, Seq<u8>)> {
    match (group_span(groups, 0), group_bytes(bytes, groups, 1)) {
        (Some((_, whole_end)), Some(name)) => match first_byte_from(bytes, whole_end, 0x28) {
            Some(params_start) => match matching_spec(bytes, params_start, 0x28, 0x29) {
                Some(params_end) => match first_byte_from(bytes, params_end + 1, 0x7b) {
                    Some(body_start) => match delimited_spec(bytes, body_start, 0x7b, 0x7d) {
                        Some(body) => Some((name, body)),
                        None => None,
                    },
                    None => None,
                },
                None => None,
            },
            None => None,
        },
        _ => None,
    }
}

/// The functions the matches find, in order.
pub open spec fn functions_of(bytes: Seq<u8>, captures: Seq<Seq<Option<(usize, usize)>>>) -> Seq<(Seq<u8>, Seq<u8>)>
    decreases captures.len(),
{
    if captures.len() == 0 {
        Seq::empty()
    } else {
        let earlier = functions_of(bytes, captures.drop_last());
        match function_of(bytes, captures.last()) {
            Some(function) => earlier.push(function),
            None => earlier,
        }
    }
}

/// Two strings as their byte sequences.
pub open spec fn pair_bytes(pair: (String, String)) -> (Seq<u8>, Seq<u8>) {
    (utf8(pair.0@), utf8(pair.1@))
}

/// Every function of a Rust source with its body: a header `fn name`, the
/// parenthesized parameters after it, and the braced block after those.
pub fn rust_function_bodies(source: &str) -> (found: Result<Vec<(String, String)>, ExtractError>)
    ensures
        match found {
            Ok(functions) => regex_build_error(FUNCTION_HEADER@) is None && functions@.map_values(
                |pair: (String, String)| pair_bytes(pair),
            ) == functions_of(utf8(source@), regex_captures(FUNCTION_HEADER@, source@)),
            Err(error) => regex_build_error(FUNCTION_HEADER@) is Some && error is InvalidPattern,
        },
{
    let captures = match captures_of(FUNCTION_HEADER, source) {
        Ok(captures) => captures,
        Err(error) => return Err(error),
    };
    let ghost caps = capture_views(captures@);
    let bytes = source.as_bytes();
    let ghost all = utf8(source@);
    let mut functions: Vec<(String, String)> = Vec::new();
    let mut m: usize = 0;
    while m < captures.len()
        invariant
            bytes@ == all,
            all == utf8(source@),
            caps == capture_views(captures@),
            spans_well_placed(caps, all),
            m <= captures@.len(),
            functions@.map_values(|pair: (String, String)| pair_bytes(pair)) == functions_of(all, caps.take(m as int)),
        decreases captures@.len() - m,
    {
        let groups = &captures[m];
        assert(caps[m as int] == groups@);
        assert(caps.take(m + 1).drop_last() =~= caps.take(m as int));
        assert(caps.take(m + 1).last() == groups@);
        let ghost before = functions@;
        let found = function_at(source, groups);
        match found {
            Some((name, body)) => {
                functions.push((name.to_owned(), body.to_owned()));
                assert(functions@.map_values(|pair: (String, String)| pair_bytes(pair)) =~= before.map_values(
                    |pair: (String, String)| pair_bytes(pair),
                ).push((name.spec_bytes(), body.spec_bytes())));
            },
            None => {},
        }
        m = m + 1;
    }
    assert(caps.take(captures@.len() as int) =~= caps);
    Ok(functions)
}

fn function_at<'a>(source: &'a str, groups: &Vec<Option<(usize, usize)>>) -> (found: Option<(&'a str, &'a str)>)
    requires
        groups@.len() > 0,
        groups@[0] is Some,
        forall|k: int|
            0 <= k < groups@.len() ==> match #[trigger] groups@[k] {
                Some((start, end)) => start <= end <= utf8(source@).len() && is_char_boundary(
                    utf8(source@),
                    start as int,
                ) && is_char_boundary(utf8(source@), end as int),
                None => true,
            },
    ensures
        match found {
            Some((name, body)) => function_of(utf8(source@), groups@) == Some((name.spec_bytes(), body.spec_bytes())),
            None => function_of(utf8(source@), groups@) is None,
        },
{
    let bytes = source.as_bytes();
    let name = match group_text(source, groups, 1) {
        Some(name) => name,
        None => return None,
    };
    let whole_end = match groups[0] {
        Some((_, end)) => end,
        None => return None,
    };
    let params_start = match find_byte(bytes, whole_end, 0x28) {
        Some(index) => index,
        None => return None,
    };
    let params_end = match matching_delimiter(source, params_start, 0x28, 0x29) {
        Some(index) => index,
        None => return None,
    };
    proof {
        lemma_scan_bounds(bytes@, params_start as int, 0, 0x28, 0x29);
    }
    let length = bytes.len();
    assert(params_end < length);
    let body_start = match find_byte(bytes, params_end + 1, 0x7b) {
        Some(index) => index,
        None => return None,
    };
    match delimited_at(source, body_start, 0x7b, 0x7d) {
        Some(body) => Some((name, body)),
        None => None,
    }
}

/// The bodies of the functions called `target`, in order.
pub open spec fn bodies_named(functions: Seq<(Seq<u8>, Seq<u8>)>, target: Seq<u8>) -> Seq<Seq<u8>>
    decreases functions.len(),
{
    if functions.len() == 0 {
        Seq::empty()
    } else {
        let earlier = bodies_named(functions.drop_last(), target);
        if functions.last().0 == target {
            earlier.push(functions.last().1)
        } else {
            earlier
        }
    }
}

/// The bodies of every function called `target` in a Rust source.
pub fn function_bodies(source: &str, target: &str) -> (found: Result<Vec<String>, ExtractError>)
    ensures
        match found {
            Ok(bodies) => regex_build_error(FUNCTION_HEADER@) is None && bodies@.map_values(
                |body: String| utf8(body@),
            ) == bodies_named(
                functions_of(utf8(source@), regex_captures(FUNCTION_HEADER@, source@)),
                utf8(target@),
            ),
            Err(error) => regex_build_error(FUNCTION_HEADER@) is Some && error is InvalidPattern,
        },
{
    let functions = match rust_function_bodies(source) {
        Ok(functions) => functions,
        Err(error) => return Err(error),
    };
    let ghost all = functions@.map_values(|pair: (String, String)| pair_bytes(pair));
    let mut bodies: Vec<String> = Vec::new();
    let mut i: usize = 0;
    while i < functions.len()
        invariant
            i <= functions@.len(),
            all == functions@.map_values(|pair: (String, String)| pair_bytes(pair)),
            bodies@.map_values(|body: String| utf8(body@)) == bodies_named(all.take(i as int), utf8(target@)),
        decreases functions@.len() - i,
    {
        assert(all.take(i + 1).drop_last() =~= all.take(i as int));
        assert(all.take(i + 1).last() == pair_bytes(functions@[i as int]));
        let ghost before = bodies@;
        if str_eq(functions[i].0.as_str(), target) {
            bodies.push(functions[i].1.clone());
            assert(bodies@.map_values(|body: String| utf8(body@)) =~= before.map_values(
                |body: String| utf8(body@),
            ).push(utf8(functions@[i as int].1@)));
        } else {
            proof {
                crate::text::lemma_utf8_injective(functions@[i as int].0@, target@);
            }
        }
        i = i + 1;
    }
    assert(all.take(functions@.len() as int) =~= all);
    Ok(bodies)
}

/// The pattern of a public enum header, capturing the enum's name.
pub const ENUM_HEADER: &'static str = r"\bpub(?:\([^)]*\))?\s+enum\s+([A-Za-z_]\w*)\s*\{";

/// The pattern of a variant name at the start of an enum body line.
pub const VARIANT_NAME: &'static str = r"([A-Z][A-Za-z0-9_]*)";

/// The body of the first enum header match naming `name`: `Some(None)` when
/// that header has no readable braced body, `None` when no header names it.
pub open spec fn enum_body(bytes: Seq<u8>, captures: Seq<Seq<Option<(usize, usize)>>>, name: Seq<u8>) -> Option<Option<Seq<u8>>>
    decreases captures.len(),
{
    if captures.len() == 0 {
        None
    } else {
        match (group_span(captures[0], 0), group_bytes(bytes, captures[0], 1)) {
            (Some((start, _)), Some(found)) => if found == name {
                Some(
                    match first_byte_from(bytes, start, 0x7b) {
                        Some(open) => delimited_spec(bytes, open, 0x7b, 0x7d),
                        None => None,
                    },
                )
            } else {
                enum_body(bytes, captures.drop_first(), name)
            },
            _ => enum_body(bytes, captures.drop_first(), name),
        }
    }
}

/// The variant a trimmed enum body line declares: the first name the variant
/// pattern finds, on a line that is not empty, a comment or an attribute.
pub open spec fn line_variant(line: Seq<u8>) -> Option<Seq<u8>> {
    if line.len() == 0 || has_prefix_at(line, 0, seq![0x2fu8, 0x2fu8]) || line[0] == 0x23 {
        None
    } else {
        let captures = regex_captures(VARIANT_NAME@, decode_utf8(line));
        if captures.len() > 0 {
            group_bytes(line, captures[0], 1)
        } else {
            None
        }
    }
}

/// The variants the trimmed lines of an enum body declare, in order.
pub open spec fn variants_of(lines: Seq<Seq<u8>>) -> Seq<Seq<u8>>
    decreases lines.len(),
{
    if lines.len() == 0 {
        Seq::empty()
    } else {
        let earlier = variants_of(lines.drop_last());
        match line_variant(lines.last()) {
            Some(variant) => earlier.push(variant),
            None => earlier,
        }
    }
}

/// The trimmed lines of a text.
pub open spec fn trimmed_lines(bytes: Seq<u8>) -> Seq<Seq<u8>> {
    lines_of(bytes).map_values(|line: Seq<u8>| trimmed_line(line))
}

/// The variants of the enum called `name`, as the first header naming it declares them.
pub open spec fn enum_variants_spec(source: Seq<char>, name: Seq<u8>) -> Seq<Seq<u8>> {
    match enum_body(utf8(source), regex_captures(ENUM_HEADER@, source), name) {
        Some(Some(body)) => variants_of(trimmed_lines(body)),
        _ => Seq::empty(),
    }
}

/// Texts as their byte sequences.
pub open spec fn text_bytes(texts: Seq<String>) -> Seq<Seq<u8>> {
    texts.map_values(|text: String| utf8(text@))
}

fn variants_in_body(body: &str) -> (found: Result<Vec<String>, ExtractError>)
    requires
        regex_build_error(VARIANT_NAME@) is None,
    ensures
        match found {
            Ok(variants) => text_bytes(variants@) == variants_of(trimmed_lines(body.spec_bytes())),
            Err(error) => false,
        },
{
    let rows = lines(body);
    let ghost all = trimmed_lines(body.spec_bytes());
    let comment = "//";
    proof {
        reveal_strlit("//");
        vstd::utf8::is_ascii_chars_encode_utf8(comment@);
        assert(comment.spec_bytes() =~= seq![0x2fu8, 0x2fu8]);
    }
    let mut variants: Vec<String> = Vec::new();
    let mut i: usize = 0;
    while i < rows.len()
        invariant
            regex_build_error(VARIANT_NAME@) is None,
            crate::text::byte_views(rows@) == lines_of(body.spec_bytes()),
            all == trimmed_lines(body.spec_bytes()),
            comment.spec_bytes() == seq![0x2fu8, 0x2fu8],
            i <= rows@.len(),
            text_bytes(variants@) == variants_of(all.take(i as int)),
        decreases rows@.len() - i,
    {
        let line = trim(rows[i]);
        proof {
            assert(rows@[i as int].spec_bytes() == lines_of(body.spec_bytes())[i as int]);
            vstd::utf8::encode_utf8_decode_utf8(rows@[i as int]@);
            assert(line.spec_bytes() == all[i as int]);
            assert(all.take(i + 1).drop_last() =~= all.take(i as int));
            assert(all.take(i + 1).last() == all[i as int]);
            vstd::utf8::encode_utf8_decode_utf8(line@);
        }
        let bytes = line.as_bytes();
        let ghost before = variants@;
        if bytes.len() > 0 && !starts_with_at(bytes, 0, comment.as_bytes()) && bytes[0] != 0x23 {
            let captures = match captures_of(VARIANT_NAME, line) {
                Ok(captures) => captures,
                Err(error) => return Err(error),
            };
            if captures.len() > 0 {
                proof {
                    assert(capture_views(captures@)[0] == captures@[0]@);
                }
                match group_text(line, &captures[0], 1) {
                    Some(variant) => {
                        variants.push(variant.to_owned());
                        assert(text_bytes(variants@) =~= text_bytes(before).push(variant.spec_bytes()));
                    },
                    None => {},
                }
            }
        }
        i = i + 1;
    }
    assert(all.take(rows@.len() as int) =~= all);
    Ok(variants)
}

/// The variants of the public enum `enum_name` in a Rust source, in declaration
/// order; empty when the source declares no such enum.
pub fn parse_enum_variants(source: &str, enum_name: &str) -> (found: Result<Vec<String>, ExtractError>)
    ensures
        found is Err <==> (regex_build_error(ENUM_HEADER@) is Some || regex_build_error(VARIANT_NAME@) is Some),
        found matches Ok(variants) ==> text_bytes(variants@) == enum_variants_spec(source@, enum_name.spec_bytes()),
        found matches Err(error) ==> error is InvalidPattern,
{
    let captures = match captures_of(ENUM_HEADER, source) {
        Ok(captures) => captures,
        Err(error) => return Err(error),
    };
    match captures_of(VARIANT_NAME, "") {
        Ok(_) => {},
        Err(error) => return Err(error),
    }
    let ghost caps = capture_views(captures@);
    let bytes = source.as_bytes();
    let ghost all = utf8(source@);
    assert(caps.skip(0) =~= caps);
    let mut m: usize = 0;
    while m < captures.len()
        invariant
            bytes@ == all,
            all == utf8(source@),
            caps == capture_views(captures@),
            caps == regex_captures(ENUM_HEADER@, source@),
            spans_well_placed(caps, all),
            regex_build_error(VARIANT_NAME@) is None,
            regex_build_error(ENUM_HEADER@) is None,
            m <= captures@.len(),
            enum_body(all, caps, enum_name.spec_bytes()) == enum_body(all, caps.skip(m as int), enum_name.spec_bytes()),
        decreases captures@.len() - m,
    {
        let groups = &captures[m];
        assert(caps.skip(m as int)[0] == groups@);
        assert(caps.skip(m as int).drop_first() =~= caps.skip(m + 1));
        let name = group_text(source, groups, 1);
        let start = match groups[0] {
            Some((start, _)) => start,
            None => 0,
        };
        if let Some(name) = name {
            if str_eq(name, enum_name) {
                proof {
                    assert(groups@[0] is Some);
                }
                let open = match find_byte(bytes, start, 0x7b) {
                    Some(open) => open,
                    None => return Ok(Vec::new()),
                };
                let body = match delimited_at(source, open, 0x7b, 0x7d) {
                    Some(body) => body,
                    None => return Ok(Vec::new()),
                };
                proof {
                    crate::text::lemma_utf8_injective(body@, body@);
                    vstd::utf8::encode_utf8_decode_utf8(body@);
                }
                return variants_in_body(body);
            } else {
                proof {
                    crate::text::lemma_utf8_injective(name@, enum_name@);
                }
            }
        }
        m = m + 1;
    }
    Ok(Vec::new())
}

/// The Unicode lowercase of a text, as `str::to_lowercase` computes it.
pub uninterp spec fn lowercase_text(text: Seq<char>) -> Seq<char>;

/// `str::to_lowercase`; its Unicode case mapping is named by `lowercase_text`.
#[verifier::external_body]
pub(crate) fn to_lowercase(text: &str) -> (lower: String)
    ensures
        lower@ == lowercase_text(text@),
{
    text.to_lowercase()
}

/// The characters `char::to_lowercase` yields for one character.
pub uninterp spec fn char_lowercase(c: char) -> Seq<char>;

/// `char::to_lowercase`, its characters gathered into a text; the case
/// mapping is named by `char_lowercase`.
#[verifier::external_body]
fn lowercase_char(c: char) -> (lower: String)
    ensures
        lower@ == char_lowercase(c),
{
    c.to_lowercase().collect()
}

/// Each character lowercased on its own by `char::to_lowercase`, the results in order.
pub open spec fn chars_lowercase(text: Seq<char>) -> Seq<char>
    decreases text.len(),
{
    if text.len() == 0 {
        Seq::empty()
    } else {
        chars_lowercase(text.drop_last()) + char_lowercase(text.last())
    }
}

/// Every character of the text lowercased on its own, the results concatenated.
pub(crate) fn lowercase_each_char(text: &str) -> (lower: String)
    ensures
        lower@ == chars_lowercase(text@),
{
    let count = text.unicode_len();
    let mut lower = String::new();
    let mut i: usize = 0;
    while i < count
        invariant
            count == text@.len(),
            i <= count,
            lower@ == chars_lowercase(text@.take(i as int)),
        decreases count - i,
    {
        let c = text.get_char(i);
        let piece = lowercase_char(c);
        proof {
            assert(text@.take(i + 1).drop_last() =~= text@.take(i as int));
            assert(text@.take(i + 1).last() == c);
        }
        lower = crate::text::concat_str(lower.as_str(), piece.as_str());
        i = i + 1;
    }
    assert(text@.take(count as int) =~= text@);
    lower
}

/// What `regex::Regex::replace_all` makes of `text` with `pattern` and `replacement`.
pub uninterp spec fn regex_replaced(pattern: Seq<char>, text: Seq<char>, replacement: Seq<char>) -> Seq<char>;

/// `regex::Regex::new(pattern)` followed by `replace_all(text, replacement)`;
/// the compile error is named by `regex_build_error`, the result by `regex_replaced`.
#[verifier::external_body]
pub(crate) fn replace_all(pattern: &str, text: &str, replacement: &str) -> (replaced: Result<String, String>)
    ensures
        replaced is Err <==> regex_build_error(pattern@) is Some,
        replaced matches Err(message) ==> regex_build_error(pattern@) == Some(message@),
        replaced matches Ok(result) ==> result@ == regex_replaced(pattern@, text@, replacement@),
{
    match regex::Regex::new(pattern) {
        Ok(compiled) => Ok(compiled.replace_all(text, replacement).into_owned()),
        Err(error) => Err(error.to_string()),
    }
}

/// A run of capitals followed by a capitalized word.
pub const ACRONYM_BOUNDARY: &'static str = r"([A-Z]+)([A-Z][a-z])";

/// A small letter or digit followed by a capital.
pub const WORD_BOUNDARY: &'static str = r"([a-z\d])([A-Z])";

/// The snake-case form of a PascalCase name: an underscore at every word
/// boundary, then lowercase.
pub open spec fn snake_case(name: Seq<char>) -> Seq<char> {
    lowercase_text(
        regex_replaced(WORD_BOUNDARY@, regex_replaced(ACRONYM_BOUNDARY@, name, "${1}_${2}"@), "${1}_${2}"@),
    )
}

/// `PascalCase` to `snake_case`.
pub fn pascal_to_snake(name: &str) -> (snake: Result<String, ExtractError>)
    ensures
        snake is Err <==> (regex_build_error(ACRONYM_BOUNDARY@) is Some || regex_build_error(WORD_BOUNDARY@) is Some),
        snake matches Ok(text) ==> text@ == snake_case(name@),
        snake matches Err(error) ==> error is InvalidPattern,
{
    let first = match replace_all(ACRONYM_BOUNDARY, name, "${1}_${2}") {
        Ok(text) => text,
        Err(message) => {
            return Err(ExtractError::InvalidPattern { pattern: ACRONYM_BOUNDARY.to_owned(), message });
        },
    };
    let second = match replace_all(WORD_BOUNDARY, first.as_str(), "${1}_${2}") {
        Ok(text) => text,
        Err(message) => {
            return Err(ExtractError::InvalidPattern { pattern: WORD_BOUNDARY.to_owned(), message });
        },
    };
    Ok(to_lowercase(second.as_str()))
}

/// Texts joined end to end.
pub open spec fn joined(pieces: Seq<Seq<char>>) -> Seq<char>
    decreases pieces.len(),
{
    if pieces.len() == 0 {
        Seq::empty()
    } else {
        joined(pieces.drop_last()) + pieces.last()
    }
}

/// A variant name compared without underscores and case: the pieces between
/// underscores joined, then every character lowercased.
pub open spec fn normalized_name(name: Seq<char>) -> Seq<char> {
    chars_lowercase(joined(split_on(utf8(name), 0x5f).map_values(|piece: Seq<u8>| decode_utf8(piece))))
}

/// A variant name without underscores, lowercased character by character.
pub fn normalized_variant(name: &str) -> (normalized: String)
    ensures
        normalized@ == normalized_name(name@),
{
    let pieces = crate::text::split_ascii(name, 0x5f);
    let ghost views = split_on(utf8(name@), 0x5f).map_values(|piece: Seq<u8>| decode_utf8(piece));
    let mut out = String::new();
    let mut i: usize = 0;
    while i < pieces.len()
        invariant
            crate::text::byte_views(pieces@) == split_on(utf8(name@), 0x5f),
            views == split_on(utf8(name@), 0x5f).map_values(|piece: Seq<u8>| decode_utf8(piece)),
            i <= pieces@.len(),
            out@ == joined(views.take(i as int)),
        decreases pieces@.len() - i,
    {
        proof {
            assert(pieces@[i as int].spec_bytes() == split_on(utf8(name@), 0x5f)[i as int]);
            vstd::utf8::encode_utf8_decode_utf8(pieces@[i as int]@);
            assert(views[i as int] == pieces@[i as int]@);
            assert(views.take(i + 1).drop_last() =~= views.take(i as int));
        }
        out = crate::text::concat_str(out.as_str(), pieces[i]);
        i = i + 1;
    }
    assert(views.take(pieces@.len() as int) =~= views);
    lowercase_each_char(out.as_str())
}

/// Blank, comment and attribute lines declare no variant: an enum body line
/// that is empty or begins with `//` (a comment or a doc comment) or `#` adds nothing to
/// the variants the lines before it declare, and any other line adds at most
/// one.
pub proof fn lemma_comment_lines_declare_nothing(lines: Seq<Seq<u8>>, line: Seq<u8>)
    ensures
        line.len() == 0 || (line.len() >= 2 && line[0] == 0x2f && line[1] == 0x2f) || (line.len() >= 1 && line[0]
            == 0x23)
            ==> variants_of(lines.push(line)) == variants_of(lines),
        variants_of(lines.push(line)).len() <= variants_of(lines).len() + 1,
        variants_of(lines.push(line)).take(variants_of(lines).len() as int) == variants_of(lines),
{
    assert(lines.push(line).drop_last() =~= lines);
    if line.len() >= 2 && line[0] == 0x2f && line[1] == 0x2f {
        assert(line.subrange(0, 2) =~= seq![0x2fu8, 0x2fu8]);
    }
    let v = variants_of(lines);
    match line_variant(line) {
        Some(found) => {
            assert(v.push(found).take(v.len() as int) =~= v);
        },
        None => {
            assert(v.take(v.len() as int) =~= v);
        },
    }
}

} // verus!
