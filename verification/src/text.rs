//! Byte-level helpers over UTF-8 text.

use vstd::prelude::*;
use vstd::utf8::*;
use vstd::string::StringSliceAdditionalSpecFns;

verus! {

broadcast use vstd::utf8::encode_utf8_valid_utf8, vstd::utf8::decode_utf8_encode_utf8,
    vstd::utf8::encode_utf8_decode_utf8;

/// The UTF-8 bytes of a character sequence.
pub open spec fn utf8(chars: Seq<char>) -> Seq<u8> {
    encode_utf8(chars)
}

/// The characters of an optional text.
pub open spec fn text_option(text: Option<String>) -> Option<Seq<char>> {
    match text {
        Some(t) => Some(t@),
        None => None,
    }
}

/// The text that UTF-8 bytes hold: `Some` exactly on valid UTF-8.
pub(crate) fn string_from_utf8(bytes: Vec<u8>) -> (result: Option<String>)
    ensures
        result is Some <==> valid_utf8(bytes@),
        result matches Some(text) ==> text@ == decode_utf8(bytes@),
{
    match crate::release::decode_utf8_text(bytes.as_slice()) {
        Ok(text) => Some(text),
        Err(_) => None,
    }
}

/// Append `bytes[start..end]` to `out`.
pub fn push_range(out: &mut Vec<u8>, bytes: &[u8], start: usize, end: usize)
    requires
        start <= end <= bytes@.len(),
    ensures
        final(out)@ == old(out)@ + bytes@.subrange(start as int, end as int),
{
    let mut index = start;
    while index < end
        invariant
            start <= index <= end <= bytes@.len(),
            out@ == old(out)@ + bytes@.subrange(start as int, index as int),
        decreases end - index,
    {
        out.push(bytes[index]);
        index = index + 1;
        assert(bytes@.subrange(start as int, index as int) =~= bytes@.subrange(
            start as int,
            index - 1,
        ).push(bytes@[index - 1]));
    }
}

/// Append all of `bytes` to `out`.
pub fn push_all(out: &mut Vec<u8>, bytes: &[u8])
    ensures
        final(out)@ == old(out)@ + bytes@,
{
    push_range(out, bytes, 0, bytes.len());
    assert(bytes@.subrange(0, bytes@.len() as int) =~= bytes@);
}

/// Owned text holding exactly the given valid UTF-8 bytes.
pub fn string_from_valid_utf8(bytes: Vec<u8>) -> (text: String)
    requires
        valid_utf8(bytes@),
    ensures
        utf8(text@) == bytes@,
{
    let ghost b = bytes@;
    match string_from_utf8(bytes) {
        Some(text) => text,
        None => String::new(),
    }
}


/// UTF-8 encoding distributes over concatenation.
pub proof fn lemma_utf8_concat(a: Seq<char>, b: Seq<char>)
    ensures
        utf8(a + b) == utf8(a) + utf8(b),
    decreases a.len(),
{
    if a.len() == 0 {
        assert(a + b =~= b);
        assert(utf8(a) + utf8(b) =~= utf8(b));
    } else {
        lemma_utf8_concat(a.drop_first(), b);
        assert((a + b).drop_first() =~= a.drop_first() + b);
        assert((a + b)[0] == a[0]);
        assert(utf8(a + b) =~= encode_scalar(a[0] as u32) + utf8(a.drop_first() + b));
    }
}

/// Two texts are equal exactly when their UTF-8 bytes are.
pub proof fn lemma_utf8_injective(a: Seq<char>, b: Seq<char>)
    ensures
        (utf8(a) == utf8(b)) <==> (a == b),
{
    if utf8(a) == utf8(b) {
        assert(decode_utf8(utf8(a)) == a);
        assert(decode_utf8(utf8(b)) == b);
    }
}

/// The text as std's `Debug` for `str` writes it: quoted, with escapes.
pub uninterp spec fn debug_text(text: Seq<char>) -> Seq<char>;

/// `format!("{:?}", text)`, std's `Debug` rendering of a string slice; its
/// exact escaping rules are left to std and named by `debug_text`.
#[verifier::external_body]
pub(crate) fn debug_quoted(text: &str) -> (quoted: String)
    ensures
        quoted@ == debug_text(text@),
{
    format!("{text:?}")
}

/// Whether `text` has no characters.
pub fn text_is_empty(text: &str) -> (empty: bool)
    ensures
        empty == (text@.len() == 0),
{
    let empty = str_eq(text, "");
    proof {
        reveal_strlit("");
        if text@.len() == 0 {
            assert(text@ =~= ""@);
        }
    }
    empty
}

/// A text's UTF-8 encoding starts with an ASCII byte exactly when the text
/// starts with that character.
pub proof fn lemma_first_char_ascii(text: Seq<char>, byte: u8)
    requires
        byte < 0x80,
    ensures
        (utf8(text).len() > 0 && utf8(text)[0] == byte) <==> (text.len() > 0 && text[0] as u32
            == byte as u32),
{
    if text.len() > 0 {
        let s = text[0] as u32;
        let head = encode_scalar(s);
        assert(utf8(text) == head + encode_utf8(text.drop_first()));
        if has_width_1_encoding(s) {
            assert(head[0] == leading_byte_width_1(s));
            assert(s <= 0x7f ==> ((s & 0x7f) as u8) as u32 == s) by (bit_vector);
        } else if has_width_2_encoding(s) {
            assert(head[0] == leading_byte_width_2(s));
            assert((0xC0u8 | (((s >> 6u32) & 0x1Fu32) as u8)) >= 0xC0u8) by (bit_vector);
        } else if has_width_3_encoding(s) {
            assert(head[0] == leading_byte_width_3(s));
            assert((0xE0u8 | (((s >> 12u32) & 0x0Fu32) as u8)) >= 0xC0u8) by (bit_vector);
        } else {
            assert(head[0] == leading_byte_width_4(s));
            assert((0xF0u8 | (((s >> 18u32) & 0x7u32) as u8)) >= 0xC0u8) by (bit_vector);
        }
    }
}

/// Byte-wise equality of two slices.
pub fn bytes_eq(a: &[u8], b: &[u8]) -> (equal: bool)
    ensures
        equal == (a@ == b@),
{
    if a.len() != b.len() {
        return false;
    }
    let mut i: usize = 0;
    while i < a.len()
        invariant
            a@.len() == b@.len(),
            i <= a@.len(),
            forall|k: int| 0 <= k < i ==> a@[k] == b@[k],
        decreases a@.len() - i,
    {
        if a[i] != b[i] {
            return false;
        }
        i = i + 1;
    }
    assert(a@ =~= b@);
    true
}

/// Text equality.
pub fn str_eq(a: &str, b: &str) -> (equal: bool)
    ensures
        equal == (a@ == b@),
{
    proof {
        lemma_utf8_injective(a@, b@);
    }
    bytes_eq(a.as_bytes(), b.as_bytes())
}

/// The UTF-8 bytes of each piece.
pub open spec fn byte_views(pieces: Seq<&str>) -> Seq<Seq<u8>> {
    pieces.map_values(|piece: &str| piece.spec_bytes())
}

/// Whether `bytes[at..]` begins with `prefix`.
pub open spec fn has_prefix_at(bytes: Seq<u8>, at: int, prefix: Seq<u8>) -> bool {
    0 <= at && at + prefix.len() <= bytes.len() && bytes.subrange(at, at + prefix.len()) == prefix
}

/// Whether `bytes[at..]` begins with `prefix`.
pub fn starts_with_at(bytes: &[u8], at: usize, prefix: &[u8]) -> (found: bool)
    ensures
        found == has_prefix_at(bytes@, at as int, prefix@),
{
    if at > bytes.len() || prefix.len() > bytes.len() - at {
        return false;
    }
    let mut i: usize = 0;
    while i < prefix.len()
        invariant
            at + prefix@.len() <= bytes@.len(),
            bytes@.len() == bytes.len(),
            i <= prefix@.len(),
            forall|k: int| 0 <= k < i ==> bytes@[at + k] == prefix@[k],
        decreases prefix@.len() - i,
    {
        if bytes[at + i] != prefix[i] {
            assert(bytes@.subrange(at as int, at + prefix@.len())[i as int] != prefix@[i as int]);
            return false;
        }
        i = i + 1;
    }
    assert(bytes@.subrange(at as int, at + prefix@.len()) =~= prefix@);
    true
}

/// The first index at or after `from` that holds `byte`.
pub open spec fn first_byte_from(bytes: Seq<u8>, from: int, byte: u8) -> Option<int>
    decreases bytes.len() - from,
{
    if from < 0 || from >= bytes.len() {
        None
    } else if bytes[from] == byte {
        Some(from)
    } else {
        first_byte_from(bytes, from + 1, byte)
    }
}

/// The first index at or after `from` that holds `byte`.
pub fn find_byte(bytes: &[u8], from: usize, byte: u8) -> (found: Option<usize>)
    ensures
        found matches Some(i) ==> first_byte_from(bytes@, from as int, byte) == Some(i as int),
        found matches Some(i) ==> from <= i < bytes@.len() && bytes@[i as int] == byte,
        found is None ==> first_byte_from(bytes@, from as int, byte) is None,
{
    proof {
        lemma_first_byte_found(bytes@, from as int, byte);
    }
    let mut i = from;
    while i < bytes.len()
        invariant
            from <= i,
            first_byte_from(bytes@, from as int, byte) == first_byte_from(bytes@, i as int, byte),
        decreases bytes@.len() - i,
    {
        if bytes[i] == byte {
            return Some(i);
        }
        i = i + 1;
    }
    None
}

/// Text made of `prefix` followed by `rest`.
pub fn concat_str(prefix: &str, rest: &str) -> (text: String)
    ensures
        text@ == prefix@ + rest@,
{
    let mut out: Vec<u8> = Vec::new();
    push_all(&mut out, prefix.as_bytes());
    push_all(&mut out, rest.as_bytes());
    proof {
        lemma_utf8_concat(prefix@, rest@);
        vstd::utf8::valid_utf8_concat(utf8(prefix@), utf8(rest@));
    }
    let text = string_from_valid_utf8(out);
    proof {
        lemma_utf8_injective(text@, prefix@ + rest@);
    }
    text
}

/// The UTF-8 bytes `start..end` of `text`, which must fall on character boundaries.
pub fn str_range(text: &str, start: usize, end: usize) -> (piece: &str)
    requires
        start <= end <= text.spec_bytes().len(),
        is_char_boundary(text.spec_bytes(), start as int),
        is_char_boundary(text.spec_bytes(), end as int),
    ensures
        piece.spec_bytes() == text.spec_bytes().subrange(start as int, end as int),
{
    let (head, _) = text.split_at(end);
    proof {
        assert(head.spec_bytes() =~= text.spec_bytes().subrange(0, end as int));
        lemma_boundary_in_prefix(text.spec_bytes(), start as int, end as int);
    }
    let (_, piece) = head.split_at(start);
    assert(piece.spec_bytes() =~= text.spec_bytes().subrange(start as int, end as int));
    piece
}

/// A boundary before `end` is also a boundary of the prefix that ends at `end`.
pub proof fn lemma_boundary_in_prefix(bytes: Seq<u8>, start: int, end: int)
    requires
        valid_utf8(bytes),
        0 <= start <= end <= bytes.len(),
        is_char_boundary(bytes, start),
        is_char_boundary(bytes, end),
    ensures
        valid_utf8(bytes.subrange(0, end)),
        is_char_boundary(bytes.subrange(0, end), start),
{
    let head = bytes.subrange(0, end);
    vstd::utf8::valid_utf8_split(bytes, end);
    if start == end {
        vstd::utf8::is_char_boundary_start_end_of_seq(head);
    } else {
        vstd::utf8::is_char_boundary_iff_not_is_continuation_byte(bytes, start);
        vstd::utf8::is_char_boundary_iff_not_is_continuation_byte(head, start);
    }
}

/// The byte after a one-byte character is a character boundary.
pub proof fn lemma_boundary_after_ascii(bytes: Seq<u8>, i: int)
    requires
        valid_utf8(bytes),
        0 <= i < bytes.len(),
        is_char_boundary(bytes, i),
        bytes[i] < 0x80,
    ensures
        is_char_boundary(bytes, i + 1),
    decreases bytes.len(),
{
    if i == 0 {
        assert(is_leading_byte_width_1(bytes[0]));
        reveal_with_fuel(is_char_boundary, 2);
    } else {
        let rest = pop_first_scalar(bytes);
        let width = length_of_first_scalar(bytes);
        assert(rest.len() < bytes.len());
        assert(rest[i - width] == bytes[i]);
        lemma_boundary_after_ascii(rest, i - width);
        assert(is_char_boundary(bytes, i + 1) == is_char_boundary(rest, i + 1 - width));
    }
}

/// A one-byte character sits on a character boundary.
pub proof fn lemma_ascii_is_boundary(bytes: Seq<u8>, i: int)
    requires
        valid_utf8(bytes),
        0 <= i < bytes.len(),
        bytes[i] < 0x80,
    ensures
        is_char_boundary(bytes, i),
{
    vstd::utf8::is_char_boundary_iff_not_is_continuation_byte(bytes, i);
}

/// `bytes` cut at every occurrence of `sep`, as `str::split` does.
pub open spec fn split_on(bytes: Seq<u8>, sep: u8) -> Seq<Seq<u8>>
    decreases bytes.len(),
{
    match first_byte_from(bytes, 0, sep) {
        None => seq![bytes],
        Some(i) => if 0 <= i < bytes.len() {
            seq![bytes.subrange(0, i)] + split_on(bytes.subrange(i + 1, bytes.len() as int), sep)
        } else {
            seq![bytes]
        },
    }
}

proof fn lemma_first_byte_offset(bytes: Seq<u8>, from: int, k: int, byte: u8)
    requires
        0 <= from <= bytes.len(),
        0 <= k,
    ensures
        first_byte_from(bytes, from + k, byte) == match first_byte_from(
            bytes.subrange(from, bytes.len() as int),
            k,
            byte,
        ) {
            Some(i) => Some(i + from),
            None => None::<int>,
        },
    decreases bytes.len() - from - k,
{
    let tail = bytes.subrange(from, bytes.len() as int);
    if from + k < bytes.len() {
        assert(tail[k] == bytes[from + k]);
        if bytes[from + k] != byte {
            lemma_first_byte_offset(bytes, from, k + 1, byte);
        }
    }
}

pub proof fn lemma_first_byte_found(bytes: Seq<u8>, from: int, byte: u8)
    ensures
        first_byte_from(bytes, from, byte) matches Some(i) ==> from <= i < bytes.len() && bytes[i]
            == byte,
    decreases bytes.len() - from,
{
    if 0 <= from < bytes.len() && bytes[from] != byte {
        lemma_first_byte_found(bytes, from + 1, byte);
    }
}

proof fn lemma_first_byte_shift(bytes: Seq<u8>, from: int, byte: u8)
    requires
        0 <= from <= bytes.len(),
    ensures
        match first_byte_from(bytes, from, byte) {
            Some(i) => first_byte_from(bytes.subrange(from, bytes.len() as int), 0, byte) == Some(
                i - from,
            ) && from <= i < bytes.len() && bytes[i] == byte,
            None => first_byte_from(bytes.subrange(from, bytes.len() as int), 0, byte) is None,
        },
{
    lemma_first_byte_offset(bytes, from, 0, byte);
    lemma_first_byte_found(bytes, from, byte);
}

/// `text` cut at every occurrence of the ASCII byte `sep`.
pub fn split_ascii(text: &str, sep: u8) -> (pieces: Vec<&str>)
    requires
        sep < 0x80,
    ensures
        byte_views(pieces@) == split_on(text.spec_bytes(), sep),
{
    let bytes = text.as_bytes();
    let ghost all = text.spec_bytes();
    proof {
        vstd::utf8::encode_utf8_valid_utf8(text@);
        vstd::utf8::is_char_boundary_start_end_of_seq(all);
        assert(all.subrange(0, all.len() as int) =~= all);
    }
    let mut pieces: Vec<&str> = Vec::new();
    let mut start: usize = 0;
    loop
        invariant
            bytes@ == all,
            bytes@.len() == bytes.len(),
            sep < 0x80,
            all == text.spec_bytes(),
            valid_utf8(all),
            start <= all.len(),
            is_char_boundary(all, start as int),
            is_char_boundary(all, all.len() as int),
            byte_views(pieces@) + split_on(
                all.subrange(start as int, all.len() as int),
                sep,
            ) == split_on(all, sep),
        decreases all.len() - start,
    {
        let ghost tail = all.subrange(start as int, all.len() as int);
        proof {
            lemma_first_byte_shift(all, start as int, sep);
        }
        match find_byte(bytes, start, sep) {
            None => {
                let piece = str_range(text, start, bytes.len());
                let ghost before = pieces@;
                pieces.push(piece);
                assert(split_on(tail, sep) == seq![tail]);
                assert(byte_views(pieces@) =~= byte_views(before) + seq![tail]);
                return pieces;
            },
            Some(i) => {
                proof {
                    lemma_first_byte_found(all, start as int, sep);
                    lemma_ascii_is_boundary(all, i as int);
                    lemma_boundary_after_ascii(all, i as int);
                }
                let piece = str_range(text, start, i);
                let ghost before = pieces@;
                pieces.push(piece);
                let ghost rel = (i - start) as int;
                assert(tail.subrange(0, rel) =~= all.subrange(start as int, i as int));
                assert(tail.subrange(rel + 1, tail.len() as int) =~= all.subrange(
                    i + 1,
                    all.len() as int,
                ));
                assert(split_on(tail, sep) == seq![tail.subrange(0, rel)] + split_on(
                    tail.subrange(rel + 1, tail.len() as int),
                    sep,
                ));
                assert(byte_views(pieces@) =~= byte_views(before).push(all.subrange(start as int, i as int)));
                assert(byte_views(pieces@) + split_on(
                    all.subrange(i + 1, all.len() as int),
                    sep,
                ) =~= byte_views(before) + split_on(tail, sep));
                start = i + 1;
            },
        }
    }
}

} // verus!
