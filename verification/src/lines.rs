//! Line splitting, whitespace trimming and number parsing over UTF-8 text.

use vstd::prelude::*;
use vstd::string::StringSliceAdditionalSpecFns;
use vstd::utf8::*;
use vstd::string::StrSliceExecFns;

use crate::text::{
    str_eq, byte_views, first_byte_from, has_prefix_at, lemma_ascii_is_boundary, lemma_boundary_after_ascii,
    split_ascii, split_on, starts_with_at, str_range, utf8,
};

verus! {

/// Whitespace as `char::is_whitespace` defines it (the Unicode `White_Space` property).
pub open spec fn is_whitespace(c: char) -> bool {
    let v = c as u32;
    (0x09 <= v <= 0x0d) || v == 0x20 || v == 0x85 || v == 0xa0 || v == 0x1680 || (0x2000 <= v
        <= 0x200a) || v == 0x2028 || v == 0x2029 || v == 0x202f || v == 0x205f || v == 0x3000
}

/// Index of the first character from `from` on that is not whitespace, or the length.
pub open spec fn trim_start_index(text: Seq<char>, from: int) -> int
    decreases text.len() - from,
{
    if from < 0 || from >= text.len() {
        text.len() as int
    } else if is_whitespace(text[from]) {
        trim_start_index(text, from + 1)
    } else {
        from
    }
}

/// One past the last character before `end` that is not whitespace, or `start`.
pub open spec fn trim_end_index(text: Seq<char>, start: int, end: int) -> int
    decreases end - start,
{
    if end <= start {
        start
    } else if is_whitespace(text[end - 1]) {
        trim_end_index(text, start, end - 1)
    } else {
        end
    }
}

/// `text` without leading and trailing whitespace.
pub open spec fn trimmed(text: Seq<char>) -> Seq<char> {
    let start = trim_start_index(text, 0);
    text.subrange(start, trim_end_index(text, start, text.len() as int))
}

/// Whether a character is whitespace as `char::is_whitespace` defines it.
pub fn is_whitespace_char(c: char) -> (white: bool)
    ensures
        white == is_whitespace(c),
{
    let v = c as u32;
    (0x09 <= v && v <= 0x0d) || v == 0x20 || v == 0x85 || v == 0xa0 || v == 0x1680 || (0x2000 <= v
        && v <= 0x200a) || v == 0x2028 || v == 0x2029 || v == 0x202f || v == 0x205f || v == 0x3000
}

/// The text without leading and trailing whitespace, as `str::trim` gives it.
pub fn trim(text: &str) -> (inner: &str)
    ensures
        inner@ == trimmed(text@),
{
    let n = text.unicode_len();
    let mut start: usize = 0;
    while start < n && is_whitespace_char(text.get_char(start))
        invariant
            n == text@.len(),
            start <= n,
            trim_start_index(text@, 0) == trim_start_index(text@, start as int),
        decreases n - start,
    {
        start = start + 1;
    }
    let mut end: usize = n;
    while end > start && is_whitespace_char(text.get_char(end - 1))
        invariant
            n == text@.len(),
            start <= end <= n,
            trim_start_index(text@, 0) == start,
            trim_end_index(text@, start as int, n as int) == trim_end_index(text@, start as int, end as int),
        decreases end - start,
    {
        end = end - 1;
    }
    text.substring_char(start, end)
}

/// `bytes` without one trailing carriage return.
pub open spec fn without_cr(bytes: Seq<u8>) -> Seq<u8> {
    if bytes.len() > 0 && bytes.last() == 0x0d {
        bytes.drop_last()
    } else {
        bytes
    }
}

/// The lines of `bytes` as `str::lines` yields them: split at `\n`, no final
/// empty line after a trailing newline, and each line without a trailing `\r`.
pub open spec fn lines_of(bytes: Seq<u8>) -> Seq<Seq<u8>> {
    let pieces = split_on(bytes, 0x0a);
    let kept = if pieces.len() > 0 && pieces.last().len() == 0 {
        pieces.drop_last()
    } else {
        pieces
    };
    kept.map_values(|piece: Seq<u8>| without_cr(piece))
}

/// The lines of `text`.
pub fn lines(text: &str) -> (result: Vec<&str>)
    ensures
        byte_views(result@) == lines_of(text.spec_bytes()),
{
    let pieces = split_ascii(text, 0x0a);
    let ghost spec_pieces = split_on(text.spec_bytes(), 0x0a);
    let count = if pieces.len() > 0 && pieces[pieces.len() - 1].as_bytes().len() == 0 {
        pieces.len() - 1
    } else {
        pieces.len()
    };
    assert(pieces@[pieces@.len() - 1].spec_bytes() == spec_pieces.last()) by {
        if pieces@.len() > 0 {
        }
    }
    let ghost kept = if spec_pieces.len() > 0 && spec_pieces.last().len() == 0 {
        spec_pieces.drop_last()
    } else {
        spec_pieces
    };
    assert(kept.len() == count);
    let mut result: Vec<&str> = Vec::new();
    let mut i: usize = 0;
    while i < count
        invariant
            count <= pieces@.len(),
            byte_views(pieces@) == spec_pieces,
            kept.len() == count,
            forall|k: int| 0 <= k < count ==> kept[k] == spec_pieces[k],
            i <= count,
            result@.len() == i,
            forall|k: int| 0 <= k < i ==> (#[trigger] result@[k]).spec_bytes() == without_cr(kept[k]),
        decreases count - i,
    {
        let piece = pieces[i];
        let bytes = piece.as_bytes();
        assert(piece.spec_bytes() == spec_pieces[i as int]);
        if bytes.len() > 0 && bytes[bytes.len() - 1] == 0x0d {
            proof {
                vstd::utf8::encode_utf8_valid_utf8(piece@);
                lemma_ascii_is_boundary(piece.spec_bytes(), bytes.len() - 1);
                vstd::utf8::is_char_boundary_start_end_of_seq(piece.spec_bytes());
            }
            let line = str_range(piece, 0, bytes.len() - 1);
            assert(line.spec_bytes() =~= without_cr(piece.spec_bytes()));
            result.push(line);
        } else {
            result.push(piece);
        }
        i = i + 1;
    }
    assert(byte_views(result@) =~= kept.map_values(
        |piece: Seq<u8>| without_cr(piece),
    ));
    result
}

/// The value of a run of decimal digits.
pub open spec fn digits_value(digits: Seq<u8>) -> int
    decreases digits.len(),
{
    if digits.len() == 0 {
        0
    } else {
        digits_value(digits.drop_last()) * 10 + (digits.last() - 0x30)
    }
}

/// Whether every byte is an ASCII digit.
pub open spec fn all_digits(bytes: Seq<u8>) -> bool {
    forall|i: int| 0 <= i < bytes.len() ==> 0x30 <= #[trigger] bytes[i] <= 0x39
}

/// The digits `u64::from_str` reads: everything after one optional leading `+`.
pub open spec fn unsigned_digits(bytes: Seq<u8>) -> Seq<u8> {
    if bytes.len() > 0 && bytes[0] == 0x2b {
        bytes.drop_first()
    } else {
        bytes
    }
}

/// What `u64::from_str` accepts: an optional `+`, then at least one decimal
/// digit, with a value that fits in 64 bits.
pub open spec fn parsed_u64(bytes: Seq<u8>) -> Option<u64> {
    let digits = unsigned_digits(bytes);
    if digits.len() > 0 && all_digits(digits) && digits_value(digits) <= u64::MAX {
        Some(digits_value(digits) as u64)
    } else {
        None
    }
}

proof fn lemma_digits_value_nonneg(digits: Seq<u8>)
    requires
        all_digits(digits),
    ensures
        digits_value(digits) >= 0,
    decreases digits.len(),
{
    if digits.len() > 0 {
        lemma_digits_value_nonneg(digits.drop_last());
    }
}

proof fn lemma_digits_value_monotone(digits: Seq<u8>, i: int)
    requires
        all_digits(digits),
        0 <= i <= digits.len(),
    ensures
        digits_value(digits.subrange(0, i)) <= digits_value(digits),
    decreases digits.len() - i,
{
    if i < digits.len() {
        lemma_digits_value_monotone(digits, i + 1);
        assert(digits.subrange(0, i + 1).drop_last() =~= digits.subrange(0, i));
        lemma_digits_value_nonneg(digits.subrange(0, i));
    } else {
        assert(digits.subrange(0, i) =~= digits);
    }
}

/// Decimal parsing with the rules of `u64::from_str`.
pub fn parse_u64(text: &str) -> (value: Option<u64>)
    ensures
        value == parsed_u64(text.spec_bytes()),
{
    let bytes = text.as_bytes();
    let start: usize = if bytes.len() > 0 && bytes[0] == 0x2b {
        1
    } else {
        0
    };
    let ghost digits = unsigned_digits(bytes@);
    assert(digits =~= bytes@.subrange(start as int, bytes@.len() as int));
    if bytes.len() <= start {
        return None;
    }
    let mut value: u64 = 0;
    let mut i = start;
    while i < bytes.len()
        invariant
            start <= i <= bytes@.len(),
            bytes@ == text.spec_bytes(),
            digits == bytes@.subrange(start as int, bytes@.len() as int),
            digits == unsigned_digits(text.spec_bytes()),
            all_digits(bytes@.subrange(start as int, i as int)),
            value == digits_value(bytes@.subrange(start as int, i as int)),
        decreases bytes@.len() - i,
    {
        let byte = bytes[i];
        if byte < 0x30 || byte > 0x39 {
            assert(digits[i - start] == byte);
            assert(!(0x30 <= digits[i - start] <= 0x39));
            assert(!all_digits(digits));
            return None;
        }
        let digit = (byte - 0x30) as u64;
        assert(bytes@.subrange(start as int, i + 1).drop_last() =~= bytes@.subrange(
            start as int,
            i as int,
        ));
        assert(all_digits(bytes@.subrange(start as int, i + 1)));
        if value > (u64::MAX - digit) / 10 {
            proof {
                assert(value * 10 + digit > u64::MAX) by (nonlinear_arith)
                    requires
                        value > (u64::MAX - digit) / 10,
                        digit <= 9,
                ;
                assert(digits.subrange(0, i + 1 - start) =~= bytes@.subrange(start as int, i + 1));
                if all_digits(digits) {
                    lemma_digits_value_monotone(digits, i + 1 - start);
                }
            }
            return None;
        }
        proof {
            assert(value * 10 + digit <= u64::MAX) by (nonlinear_arith)
                requires
                    value <= (u64::MAX - digit) / 10,
                    digit <= 9,
            ;
        }
        value = value * 10 + digit;
        i = i + 1;
    }
    assert(bytes@.subrange(start as int, bytes@.len() as int) =~= digits);
    Some(value)
}

/// A release version: at least three `.`-separated parts that each parse as
/// `u64`, as the ordered numeric parts.
pub open spec fn version_parts(bytes: Seq<u8>) -> Option<Seq<u64>> {
    let parts = split_on(bytes, 0x2e);
    if (forall|i: int| 0 <= i < parts.len() ==> (#[trigger] parsed_u64(parts[i])) is Some)
        && parts.len() >= 3 {
        Some(parts.map_values(|part: Seq<u8>| parsed_u64(part)->Some_0))
    } else {
        None
    }
}

/// Parse a numeric release version such as `0.0.19`.
pub fn parse_version(version: &str) -> (parts: Option<Vec<u64>>)
    ensures
        parts matches Some(values) ==> version_parts(version.spec_bytes()) == Some(values@),
        parts is None ==> version_parts(version.spec_bytes()) is None,
{
    let pieces = split_ascii(version, 0x2e);
    let ghost spec_parts = split_on(version.spec_bytes(), 0x2e);
    let mut values: Vec<u64> = Vec::new();
    let mut i: usize = 0;
    while i < pieces.len()
        invariant
            byte_views(pieces@) == spec_parts,
            spec_parts == split_on(version.spec_bytes(), 0x2e),
            i <= pieces@.len(),
            values@.len() == i,
            forall|k: int| 0 <= k < i ==> (#[trigger] parsed_u64(spec_parts[k])) == Some(values@[k]),
        decreases pieces@.len() - i,
    {
        assert(pieces@[i as int].spec_bytes() == spec_parts[i as int]);
        match parse_u64(pieces[i]) {
            Some(value) => values.push(value),
            None => {
                assert(parsed_u64(spec_parts[i as int]) is None);
                return None;
            },
        }
        i = i + 1;
    }
    if values.len() < 3 {
        return None;
    }
    assert(values@ =~= spec_parts.map_values(|part: Seq<u8>| parsed_u64(part)->Some_0));
    Some(values)
}

/// The first position at or after `from` where `needle` occurs.
pub open spec fn first_match_from(bytes: Seq<u8>, from: int, needle: Seq<u8>) -> Option<int>
    decreases bytes.len() + 1 - from,
{
    if from < 0 || from + needle.len() > bytes.len() {
        None
    } else if has_prefix_at(bytes, from, needle) {
        Some(from)
    } else {
        first_match_from(bytes, from + 1, needle)
    }
}

/// `bytes` cut at every occurrence of a non-empty `needle`, as `str::split` does.
pub open spec fn split_by(bytes: Seq<u8>, needle: Seq<u8>) -> Seq<Seq<u8>>
    decreases bytes.len(),
{
    if needle.len() == 0 {
        seq![bytes]
    } else {
        match first_match_from(bytes, 0, needle) {
            Some(i) => if 0 <= i && i + needle.len() <= bytes.len() {
                seq![bytes.subrange(0, i)] + split_by(
                    bytes.subrange(i + needle.len(), bytes.len() as int),
                    needle,
                )
            } else {
                seq![bytes]
            },
            None => seq![bytes],
        }
    }
}

proof fn lemma_first_match_offset(bytes: Seq<u8>, from: int, k: int, needle: Seq<u8>)
    requires
        0 <= from <= bytes.len(),
        0 <= k,
    ensures
        first_match_from(bytes, from + k, needle) == match first_match_from(
            bytes.subrange(from, bytes.len() as int),
            k,
            needle,
        ) {
            Some(i) => Some(i + from),
            None => None::<int>,
        },
    decreases bytes.len() + 1 - from - k,
{
    let tail = bytes.subrange(from, bytes.len() as int);
    if from + k + needle.len() <= bytes.len() {
        assert(tail.subrange(k, k + needle.len()) =~= bytes.subrange(from + k, from + k + needle.len()));
        if !has_prefix_at(bytes, from + k, needle) {
            lemma_first_match_offset(bytes, from, k + 1, needle);
        }
    }
}

pub proof fn lemma_first_match_found(bytes: Seq<u8>, from: int, needle: Seq<u8>)
    ensures
        first_match_from(bytes, from, needle) matches Some(i) ==> from <= i && i + needle.len()
            <= bytes.len() && has_prefix_at(bytes, i, needle),
    decreases bytes.len() + 1 - from,
{
    if !(from < 0 || from + needle.len() > bytes.len()) && !has_prefix_at(bytes, from, needle) {
        lemma_first_match_found(bytes, from + 1, needle);
    }
}

/// Whether every byte is ASCII.
pub open spec fn all_ascii(bytes: Seq<u8>) -> bool {
    forall|i: int| 0 <= i < bytes.len() ==> #[trigger] bytes[i] < 0x80
}

/// The first occurrence of `needle` at or after `from`.
pub fn find_from(bytes: &[u8], from: usize, needle: &[u8]) -> (found: Option<usize>)
    requires
        needle@.len() > 0,
    ensures
        found matches Some(i) ==> first_match_from(bytes@, from as int, needle@) == Some(i as int),
        found is None ==> first_match_from(bytes@, from as int, needle@) is None,
{
    let mut i = from;
    while i <= bytes.len() && needle.len() <= bytes.len() - i
        invariant
            from <= i,
            needle@.len() > 0,
            needle@.len() == needle.len(),
            bytes@.len() == bytes.len(),
            first_match_from(bytes@, from as int, needle@) == first_match_from(bytes@, i as int, needle@),
        decreases bytes@.len() + 1 - i,
    {
        if starts_with_at(bytes, i, needle) {
            return Some(i);
        }
        i = i + 1;
    }
    None
}

/// `text` cut at every occurrence of a non-empty ASCII `needle`.
pub fn split_text<'a>(text: &'a str, needle: &str) -> (pieces: Vec<&'a str>)
    requires
        needle.spec_bytes().len() > 0,
        all_ascii(needle.spec_bytes()),
    ensures
        byte_views(pieces@) == split_by(
            text.spec_bytes(),
            needle.spec_bytes(),
        ),
{
    let bytes = text.as_bytes();
    let pattern = needle.as_bytes();
    let ghost all = text.spec_bytes();
    let ghost pat = needle.spec_bytes();
    proof {
        vstd::utf8::encode_utf8_valid_utf8(text@);
        vstd::utf8::is_char_boundary_start_end_of_seq(all);
        assert(all.subrange(0, all.len() as int) =~= all);
    }
    let mut pieces: Vec<&'a str> = Vec::new();
    let mut start: usize = 0;
    loop
        invariant
            bytes@ == all,
            bytes@.len() == bytes.len(),
            pattern@ == pat,
            pat.len() > 0,
            all_ascii(pat),
            all == text.spec_bytes(),
            pat == needle.spec_bytes(),
            valid_utf8(all),
            start <= all.len(),
            is_char_boundary(all, start as int),
            is_char_boundary(all, all.len() as int),
            byte_views(pieces@) + split_by(
                all.subrange(start as int, all.len() as int),
                pat,
            ) == split_by(all, pat),
        decreases all.len() - start,
    {
        let ghost tail = all.subrange(start as int, all.len() as int);
        proof {
            lemma_first_match_offset(all, start as int, 0, pat);
            lemma_first_match_found(all, start as int, pat);
        }
        match find_from(bytes, start, pattern) {
            None => {
                let piece = str_range(text, start, bytes.len());
                let ghost before = pieces@;
                pieces.push(piece);
                assert(split_by(tail, pat) == seq![tail]);
                assert(byte_views(pieces@) =~= byte_views(before) + seq![tail]);
                return pieces;
            },
            Some(i) => {
                let end = i + pattern.len();
                proof {
                    assert(all.subrange(i as int, end as int) == pat);
                    assert(all[i as int] == pat[0]);
                    lemma_ascii_is_boundary(all, i as int);
                    assert(all[end - 1] == pat[pat.len() - 1]);
                    lemma_ascii_is_boundary(all, end - 1);
                    lemma_boundary_after_ascii(all, end - 1);
                }
                let piece = str_range(text, start, i);
                let ghost before = pieces@;
                pieces.push(piece);
                let ghost rel = (i - start) as int;
                assert(tail.subrange(0, rel) =~= all.subrange(start as int, i as int));
                assert(tail.subrange(rel + pat.len(), tail.len() as int) =~= all.subrange(
                    end as int,
                    all.len() as int,
                ));
                assert(split_by(tail, pat) == seq![tail.subrange(0, rel)] + split_by(
                    tail.subrange(rel + pat.len(), tail.len() as int),
                    pat,
                ));
                assert(byte_views(pieces@) =~= byte_views(before).push(all.subrange(start as int, i as int)));
                assert(byte_views(pieces@) + split_by(
                    all.subrange(end as int, all.len() as int),
                    pat,
                ) =~= byte_views(before) + split_by(tail, pat));
                start = end;
            },
        }
    }
}

/// Every byte before `n` is ASCII, so `n` starts a character.
pub proof fn lemma_ascii_prefix_boundary(bytes: Seq<u8>, n: int)
    requires
        valid_utf8(bytes),
        0 <= n <= bytes.len(),
        forall|i: int| 0 <= i < n ==> #[trigger] bytes[i] < 0x80,
    ensures
        is_char_boundary(bytes, n),
    decreases n,
{
    if n == 0 {
        vstd::utf8::is_char_boundary_start_end_of_seq(bytes);
    } else {
        lemma_ascii_prefix_boundary(bytes, n - 1);
        lemma_boundary_after_ascii(bytes, n - 1);
    }
}

/// `bytes` after `prefix`, when it starts with it.
pub open spec fn after_prefix(bytes: Seq<u8>, prefix: Seq<u8>) -> Option<Seq<u8>> {
    if has_prefix_at(bytes, 0, prefix) {
        Some(bytes.subrange(prefix.len() as int, bytes.len() as int))
    } else {
        None
    }
}

/// `text` after an ASCII `prefix`, when it starts with it.
pub fn strip_ascii_prefix<'a>(text: &'a str, prefix: &str) -> (rest: Option<&'a str>)
    requires
        all_ascii(prefix.spec_bytes()),
    ensures
        match rest {
            Some(r) => after_prefix(text.spec_bytes(), prefix.spec_bytes()) == Some(r.spec_bytes()),
            None => after_prefix(text.spec_bytes(), prefix.spec_bytes()) is None,
        },
{
    let bytes = text.as_bytes();
    let head = prefix.as_bytes();
    if !starts_with_at(bytes, 0, head) {
        return None;
    }
    proof {
        let all = text.spec_bytes();
        vstd::utf8::encode_utf8_valid_utf8(text@);
        vstd::utf8::is_char_boundary_start_end_of_seq(all);
        assert forall|i: int| 0 <= i < head@.len() implies #[trigger] all[i] < 0x80 by {
            assert(all.subrange(0, head@.len() as int)[i] == head@[i]);
        }
        lemma_ascii_prefix_boundary(all, head@.len() as int);
    }
    Some(str_range(text, head.len(), bytes.len()))
}

/// The text between a leading and a trailing double quote.
pub open spec fn quoted_bytes(value: Seq<u8>) -> Option<Seq<u8>> {
    if value.len() >= 2 && value[0] == 0x22 && value[value.len() - 1] == 0x22 {
        Some(value.subrange(1, value.len() - 1))
    } else {
        None
    }
}

/// The contents of a double-quoted value.
pub fn quoted<'a>(value: &'a str) -> (inner: Option<&'a str>)
    ensures
        match inner {
            Some(i) => quoted_bytes(value.spec_bytes()) == Some(i.spec_bytes()),
            None => quoted_bytes(value.spec_bytes()) is None,
        },
{
    let bytes = value.as_bytes();
    let length = bytes.len();
    if length < 2 || bytes[0] != 0x22 || bytes[length - 1] != 0x22 {
        return None;
    }
    proof {
        let all = value.spec_bytes();
        vstd::utf8::encode_utf8_valid_utf8(value@);
        vstd::utf8::is_char_boundary_start_end_of_seq(all);
        lemma_boundary_after_ascii(all, 0);
        lemma_ascii_is_boundary(all, length - 1);
    }
    Some(str_range(value, 1, length - 1))
}

/// A lock file line with its surrounding whitespace removed.
pub open spec fn trimmed_line(line: Seq<u8>) -> Seq<u8> {
    utf8(trimmed(decode_utf8(line)))
}

/// The `name` and `version` values of a lock file block, from its trimmed
/// lines: a later `name = ` or `version = ` line replaces an earlier one, and
/// a value that is not double-quoted reads as absent.
pub open spec fn lock_fields(lines: Seq<Seq<u8>>) -> (Option<Seq<u8>>, Option<Seq<u8>>)
    decreases lines.len(),
{
    if lines.len() == 0 {
        (None, None)
    } else {
        let earlier = lock_fields(lines.drop_last());
        match after_prefix(lines.last(), utf8("name = "@)) {
            Some(rest) => (quoted_bytes(rest), earlier.1),
            None => match after_prefix(lines.last(), utf8("version = "@)) {
                Some(rest) => (earlier.0, quoted_bytes(rest)),
                None => earlier,
            },
        }
    }
}

/// The version a lock file block records for `package`, if the block is that package's.
pub open spec fn block_version(block: Seq<u8>, package: Seq<u8>) -> Option<Seq<u8>> {
    let fields = lock_fields(lines_of(block).map_values(|line: Seq<u8>| trimmed_line(line)));
    if fields.0 == Some(package) {
        fields.1
    } else {
        None
    }
}

/// The version recorded by the first of `blocks` that has one for `package`.
pub open spec fn first_block_version(blocks: Seq<Seq<u8>>, package: Seq<u8>) -> Option<Seq<u8>>
    decreases blocks.len(),
{
    if blocks.len() == 0 {
        None
    } else {
        match block_version(blocks[0], package) {
            Some(version) => Some(version),
            None => first_block_version(blocks.drop_first(), package),
        }
    }
}

proof fn lemma_ascii_literal(text: &str)
    requires
        is_ascii_chars(text@),
    ensures
        all_ascii(text.spec_bytes()),
        text.spec_bytes().len() == text@.len(),
{
    vstd::utf8::is_ascii_chars_encode_utf8(text@);
    assert forall|i: int| 0 <= i < text.spec_bytes().len() implies #[trigger] text.spec_bytes()[i] < 0x80 by {
        assert(text@[i] as u8 == text.spec_bytes()[i]);
    }
}

fn block_package_version<'a>(block: &'a str, package_name: &str) -> (version: Option<&'a str>)
    ensures
        match version {
            Some(v) => block_version(block.spec_bytes(), package_name.spec_bytes()) == Some(v.spec_bytes()),
            None => block_version(block.spec_bytes(), package_name.spec_bytes()) is None,
        },
{
    let name_prefix = "name = ";
    let version_prefix = "version = ";
    proof {
        reveal_strlit("name = ");
        reveal_strlit("version = ");
        lemma_ascii_literal(name_prefix);
        lemma_ascii_literal(version_prefix);
    }
    let rows = lines(block);
    let ghost trimmed_rows = lines_of(block.spec_bytes()).map_values(|line: Seq<u8>| trimmed_line(line));
    let mut name: Option<&'a str> = None;
    let mut version: Option<&'a str> = None;
    let mut i: usize = 0;
    while i < rows.len()
        invariant
            byte_views(rows@) == lines_of(block.spec_bytes()),
            trimmed_rows == lines_of(block.spec_bytes()).map_values(|line: Seq<u8>| trimmed_line(line)),
            all_ascii(name_prefix.spec_bytes()),
            all_ascii(version_prefix.spec_bytes()),
            name_prefix@ == "name = "@,
            version_prefix@ == "version = "@,
            i <= rows@.len(),
            (match name { Some(n) => Some(n.spec_bytes()), None => None::<Seq<u8>> }, match version {
                Some(v) => Some(v.spec_bytes()),
                None => None::<Seq<u8>>,
            }) == lock_fields(trimmed_rows.take(i as int)),
        decreases rows@.len() - i,
    {
        let line = trim(rows[i]);
        proof {
            assert(rows@[i as int].spec_bytes() == lines_of(block.spec_bytes())[i as int]);
            vstd::utf8::encode_utf8_decode_utf8(rows@[i as int]@);
            assert(trimmed_rows[i as int] == trimmed_line(rows@[i as int].spec_bytes()));
            assert(line.spec_bytes() == trimmed_rows[i as int]);
            assert(trimmed_rows.take(i + 1).drop_last() =~= trimmed_rows.take(i as int));
            assert(trimmed_rows.take(i + 1).last() == trimmed_rows[i as int]);
        }
        match strip_ascii_prefix(line, name_prefix) {
            Some(rest) => {
                name = quoted(rest);
            },
            None => match strip_ascii_prefix(line, version_prefix) {
                Some(rest) => {
                    version = quoted(rest);
                },
                None => {},
            },
        }
        i = i + 1;
    }
    assert(trimmed_rows.take(rows@.len() as int) =~= trimmed_rows);
    match name {
        Some(n) => {
            if str_eq(n, package_name) {
                proof {
                    crate::text::lemma_utf8_injective(n@, package_name@);
                }
                version
            } else {
                proof {
                    crate::text::lemma_utf8_injective(n@, package_name@);
                }
                None
            }
        },
        None => None,
    }
}

/// The version a Cargo lock file records for the package called `package_name`:
/// the first `[[package]]` block whose quoted `name` is exactly the package
/// and that has a quoted `version`.
pub fn package_version<'a>(lockfile: &'a str, package_name: &str) -> (version: Option<&'a str>)
    ensures
        match version {
            Some(v) => first_block_version(
                split_by(lockfile.spec_bytes(), utf8("[[package]]"@)),
                package_name.spec_bytes(),
            ) == Some(v.spec_bytes()),
            None => first_block_version(
                split_by(lockfile.spec_bytes(), utf8("[[package]]"@)),
                package_name.spec_bytes(),
            ) is None,
        },
{
    let marker = "[[package]]";
    proof {
        reveal_strlit("[[package]]");
        lemma_ascii_literal(marker);
    }
    let blocks = split_text(lockfile, marker);
    let ghost all = split_by(lockfile.spec_bytes(), utf8("[[package]]"@));
    assert(all.skip(0) =~= all);
    let mut k: usize = 0;
    while k < blocks.len()
        invariant
            byte_views(blocks@) == all,
            all == split_by(lockfile.spec_bytes(), utf8("[[package]]"@)),
            k <= blocks@.len(),
            first_block_version(all, package_name.spec_bytes()) == first_block_version(
                all.skip(k as int),
                package_name.spec_bytes(),
            ),
        decreases blocks@.len() - k,
    {
        assert(all.skip(k as int).len() > 0);
        assert(all.skip(k as int)[0] == blocks@[k as int].spec_bytes());
        assert(all.skip(k as int).drop_first() =~= all.skip(k + 1));
        match block_package_version(blocks[k], package_name) {
            Some(version) => {
                assert(block_version(all.skip(k as int)[0], package_name.spec_bytes()) == Some(
                    version.spec_bytes(),
                ));
                assert(first_block_version(all.skip(k as int), package_name.spec_bytes()) == Some(
                    version.spec_bytes(),
                ));
                return Some(version);
            },
            None => {},
        }
        k = k + 1;
    }
    None
}

} // verus!
