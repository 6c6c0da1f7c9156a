//! Text helpers of source lowering that need no syntax tree: line bounds,
//! indentation, private-name mangling, simple string literals and Unicode
//! decimal digits.

use vstd::prelude::*;
use vstd::string::StringSliceAdditionalSpecFns;
use vstd::utf8::*;
use vstd::string::StrSliceExecFns;

use crate::text::{concat_str, find_byte, first_byte_from, lemma_boundary_after_ascii, str_range, utf8};

verus! {

broadcast use vstd::utf8::encode_utf8_valid_utf8, vstd::utf8::encode_utf8_decode_utf8;

/// The index just past the last newline before `offset`, or zero.
pub open spec fn line_start_of(bytes: Seq<u8>, offset: int) -> int
    decreases offset,
{
    if offset <= 0 {
        0
    } else if bytes[offset - 1] == 0x0a {
        offset
    } else {
        line_start_of(bytes, offset - 1)
    }
}

/// Whether `offset` can cut `bytes`: within them, on a character boundary.
pub open spec fn cuts(bytes: Seq<u8>, offset: int) -> bool {
    0 <= offset <= bytes.len() && is_char_boundary(bytes, offset)
}

/// Where the line holding `offset` starts: just past the last newline before
/// it. `None` when `offset` does not cut the source.
pub fn line_start(source: &str, offset: usize) -> (start: Option<usize>)
    ensures
        start is Some <==> cuts(source.spec_bytes(), offset as int),
        start matches Some(s) ==> s == line_start_of(source.spec_bytes(), offset as int),
{
    let bytes = source.as_bytes();
    if offset > bytes.len() || !source.is_char_boundary(offset) {
        return None;
    }
    let mut i = offset;
    while i > 0
        invariant
            i <= offset <= bytes@.len(),
            bytes@ == source.spec_bytes(),
            cuts(bytes@, offset as int),
            line_start_of(bytes@, offset as int) == line_start_of(bytes@, i as int),
        decreases i,
    {
        if bytes[i - 1] == 0x0a {
            return Some(i);
        }
        i = i - 1;
    }
    Some(0)
}

/// Where the line holding `offset` ends: just past its newline, or at the
/// end of the source when it has none. `None` when `offset` does not cut
/// the source.
pub fn line_end_including_newline(source: &str, offset: usize) -> (end: Option<usize>)
    ensures
        end is Some <==> cuts(source.spec_bytes(), offset as int),
        end matches Some(e) ==> e == match first_byte_from(source.spec_bytes(), offset as int, 0x0a) {
            Some(i) => i + 1,
            None => source.spec_bytes().len() as int,
        },
{
    let bytes = source.as_bytes();
    if offset > bytes.len() || !source.is_char_boundary(offset) {
        return None;
    }
    match find_byte(bytes, offset, 0x0a) {
        Some(i) => Some(i + 1),
        None => Some(bytes.len()),
    }
}

/// `unit` repeated `count` times.
pub open spec fn repeated(unit: Seq<char>, count: nat) -> Seq<char>
    decreases count,
{
    if count == 0 {
        Seq::empty()
    } else {
        repeated(unit, (count - 1) as nat) + unit
    }
}

/// The indentation `level` steps of `unit` inside `base`.
pub fn nested_indent(base: &str, unit: &str, level: usize) -> (indent: String)
    ensures
        indent@ == base@ + repeated(unit@, level as nat),
{
    let mut indent = base.to_owned();
    let mut i: usize = 0;
    while i < level
        invariant
            i <= level,
            indent@ == base@ + repeated(unit@, i as nat),
        decreases level - i,
    {
        let next = concat_str(indent.as_str(), unit);
        proof {
            assert(base@ + repeated(unit@, (i + 1) as nat) =~= base@ + repeated(unit@, i as nat) + unit@);
        }
        indent = next;
        i = i + 1;
    }
    indent
}

/// The index of the first byte at or after `from` that is not `_`, or the length.
pub open spec fn skip_underscores(bytes: Seq<u8>, from: int) -> int
    decreases bytes.len() - from,
{
    if from < 0 || from >= bytes.len() {
        bytes.len() as int
    } else if bytes[from] == 0x5f {
        skip_underscores(bytes, from + 1)
    } else {
        from
    }
}

/// Whether an identifier is a class-private name: it begins with `__`, does
/// not end with `__`, and holds no `.`.
pub open spec fn is_private_name(identifier: Seq<u8>) -> bool {
    &&& identifier.len() >= 2
    &&& identifier[0] == 0x5f && identifier[1] == 0x5f
    &&& !(identifier[identifier.len() - 2] == 0x5f && identifier[identifier.len() - 1] == 0x5f)
    &&& !identifier.contains(0x2e)
}

/// The name Python gives a private identifier inside a class: `_`, the class
/// name without its leading underscores, then the identifier. None when the
/// identifier is not private or the class name is all underscores.
pub open spec fn mangled_name(class_name: Seq<u8>, identifier: Seq<u8>) -> Option<Seq<u8>> {
    let start = skip_underscores(class_name, 0);
    if !is_private_name(identifier) || start == class_name.len() {
        None
    } else {
        Some(seq![0x5fu8] + class_name.subrange(start, class_name.len() as int) + identifier)
    }
}

proof fn lemma_underscore_utf8()
    ensures
        utf8(seq!['_']) == seq![0x5fu8],
{
    let chars = seq!['_'];
    assert(chars[0] as u32 == 0x5f);
    assert(chars.drop_first() =~= Seq::<char>::empty());
    assert(utf8(chars.drop_first()) =~= Seq::<u8>::empty());
    assert((0x5fu32 & 0x7Fu32) as u8 == 0x5fu8) by (bit_vector);
    assert(encode_scalar(0x5f) =~= seq![0x5fu8]);
    assert(utf8(chars) =~= encode_scalar(0x5f) + utf8(chars.drop_first()));
}

fn contains_dot(bytes: &[u8]) -> (found: bool)
    ensures
        found == bytes@.contains(0x2e),
{
    let mut i: usize = 0;
    while i < bytes.len()
        invariant
            i <= bytes@.len(),
            forall|k: int| 0 <= k < i ==> bytes@[k] != 0x2e,
        decreases bytes@.len() - i,
    {
        if bytes[i] == 0x2e {
            return true;
        }
        i = i + 1;
    }
    false
}

/// Mangle a class-private identifier as Python does inside `class_name`.
pub fn mangle_private_name(class_name: &str, identifier: &str) -> (mangled: Option<String>)
    ensures
        match mangled_name(class_name.spec_bytes(), identifier.spec_bytes()) {
            Some(name) => mangled matches Some(m) && utf8(m@) == name,
            None => mangled is None,
        },
{
    let id = identifier.as_bytes();
    let n = id.len();
    if n < 2 || id[0] != 0x5f || id[1] != 0x5f || (id[n - 2] == 0x5f && id[n - 1] == 0x5f) || contains_dot(id) {
        return None;
    }
    let class = class_name.as_bytes();
    let mut start: usize = 0;
    proof {
        vstd::utf8::is_char_boundary_start_end_of_seq(class@);
    }
    while start < class.len() && class[start] == 0x5f
        invariant
            start <= class@.len(),
            valid_utf8(class@),
            skip_underscores(class@, 0) == skip_underscores(class@, start as int),
            is_char_boundary(class@, start as int),
        decreases class@.len() - start,
    {
        proof {
            lemma_boundary_after_ascii(class@, start as int);
        }
        start = start + 1;
    }
    if start == class.len() {
        return None;
    }
    proof {
        reveal_strlit("_");
        vstd::utf8::is_char_boundary_start_end_of_seq(class@);
    }
    let rest = str_range(class_name, start, class.len());
    let head = concat_str("_", rest);
    let name = concat_str(head.as_str(), identifier);
    proof {
        crate::text::lemma_utf8_concat("_"@ + rest@, identifier@);
        crate::text::lemma_utf8_concat("_"@, rest@);
        assert("_"@ =~= seq!['_']);
        lemma_underscore_utf8();
    }
    Some(name)
}


/// Whether a source text is a simple string literal: at least two bytes,
/// no backslash, opened and closed by the same quote (`'` or `"`), and not
/// opened by two quotes in a row.
pub open spec fn simple_literal(bytes: Seq<u8>) -> bool {
    &&& bytes.len() >= 2
    &&& !bytes.contains(0x5c)
    &&& (bytes[0] == 0x27 || bytes[0] == 0x22)
    &&& bytes[bytes.len() - 1] == bytes[0]
    &&& bytes[1] != bytes[0]
}

/// The contents between the quotes of a simple string literal.
pub fn simple_string_literal_contents(source: &str) -> (contents: Option<&str>)
    ensures
        contents is Some <==> simple_literal(source.spec_bytes()),
        contents matches Some(inner) ==> inner.spec_bytes() == source.spec_bytes().subrange(
            1,
            source.spec_bytes().len() - 1,
        ),
{
    let bytes = source.as_bytes();
    let n = bytes.len();
    if n < 2 {
        return None;
    }
    let mut i: usize = 0;
    while i < n
        invariant
            i <= n == bytes@.len(),
            bytes@ == source.spec_bytes(),
            forall|k: int| 0 <= k < i ==> bytes@[k] != 0x5c,
        decreases n - i,
    {
        if bytes[i] == 0x5c {
            assert(bytes@[i as int] == 0x5c);
            return None;
        }
        i = i + 1;
    }
    let quote = bytes[0];
    if !(quote == 0x27 || quote == 0x22) || bytes[n - 1] != quote || bytes[1] == quote {
        return None;
    }
    proof {
        crate::text::lemma_ascii_is_boundary(bytes@, n - 1);
        lemma_boundary_after_ascii(bytes@, 0);
        vstd::utf8::is_char_boundary_start_end_of_seq(bytes@);
    }
    Some(str_range(source, 1, n - 1))
}

/// The zero of each block of ten Unicode decimal digits.
pub open spec fn decimal_zeroes() -> Seq<u32> {
    seq![
        0x0030u32, 0x0660u32, 0x06f0u32, 0x07c0u32, 0x0966u32, 0x09e6u32, 0x0a66u32, 0x0ae6u32,
        0x0b66u32, 0x0be6u32, 0x0c66u32, 0x0ce6u32, 0x0d66u32, 0x0de6u32, 0x0e50u32, 0x0ed0u32,
        0x0f20u32, 0x1040u32, 0x1090u32, 0x17e0u32, 0x1810u32, 0x1946u32, 0x19d0u32, 0x1a80u32,
        0x1a90u32, 0x1b50u32, 0x1bb0u32, 0x1c40u32, 0x1c50u32, 0xa620u32, 0xa8d0u32, 0xa900u32,
        0xa9d0u32, 0xa9f0u32, 0xaa50u32, 0xabf0u32, 0xff10u32, 0x104a0u32, 0x10d30u32, 0x11066u32,
        0x110f0u32, 0x11136u32, 0x111d0u32, 0x112f0u32, 0x11450u32, 0x114d0u32, 0x11650u32, 0x116c0u32,
        0x11730u32, 0x118e0u32, 0x11950u32, 0x11c50u32, 0x11d50u32, 0x11da0u32, 0x11f50u32, 0x16a60u32,
        0x16ac0u32, 0x16b50u32, 0x1d7ceu32, 0x1d7d8u32, 0x1d7e2u32, 0x1d7ecu32, 0x1d7f6u32, 0x1e140u32,
        0x1e2f0u32, 0x1e4f0u32, 0x1e950u32,
    ]
}

/// The digit a code point stands for, looking through the blocks from `k` on.
pub open spec fn digit_from_block(value: u32, k: int) -> Option<u8>
    decreases 67 - k,
{
    if k < 0 || k >= 67 {
        None
    } else if decimal_zeroes()[k] <= value && value - decimal_zeroes()[k] < 10 {
        Some((value - decimal_zeroes()[k]) as u8)
    } else {
        digit_from_block(value, k + 1)
    }
}

/// The decimal digit a character stands for, if it is a Unicode decimal digit.
pub open spec fn decimal_digit(c: char) -> Option<u8> {
    digit_from_block(c as u32, 0)
}

proof fn lemma_digit_below_ten(value: u32, k: int)
    ensures
        digit_from_block(value, k) matches Some(d) ==> d < 10,
    decreases 67 - k,
{
    if 0 <= k < 67 && !(decimal_zeroes()[k] <= value && value - decimal_zeroes()[k] < 10) {
        lemma_digit_below_ten(value, k + 1);
    }
}

/// The value of a Unicode decimal digit character.
pub fn unicode_decimal_digit(character: char) -> (digit: Option<u8>)
    ensures
        digit == decimal_digit(character),
        digit matches Some(d) ==> d < 10,
{
    let zeroes: Vec<u32> = vec![
        0x0030u32, 0x0660u32, 0x06f0u32, 0x07c0u32, 0x0966u32, 0x09e6u32, 0x0a66u32, 0x0ae6u32,
        0x0b66u32, 0x0be6u32, 0x0c66u32, 0x0ce6u32, 0x0d66u32, 0x0de6u32, 0x0e50u32, 0x0ed0u32,
        0x0f20u32, 0x1040u32, 0x1090u32, 0x17e0u32, 0x1810u32, 0x1946u32, 0x19d0u32, 0x1a80u32,
        0x1a90u32, 0x1b50u32, 0x1bb0u32, 0x1c40u32, 0x1c50u32, 0xa620u32, 0xa8d0u32, 0xa900u32,
        0xa9d0u32, 0xa9f0u32, 0xaa50u32, 0xabf0u32, 0xff10u32, 0x104a0u32, 0x10d30u32, 0x11066u32,
        0x110f0u32, 0x11136u32, 0x111d0u32, 0x112f0u32, 0x11450u32, 0x114d0u32, 0x11650u32, 0x116c0u32,
        0x11730u32, 0x118e0u32, 0x11950u32, 0x11c50u32, 0x11d50u32, 0x11da0u32, 0x11f50u32, 0x16a60u32,
        0x16ac0u32, 0x16b50u32, 0x1d7ceu32, 0x1d7d8u32, 0x1d7e2u32, 0x1d7ecu32, 0x1d7f6u32, 0x1e140u32,
        0x1e2f0u32, 0x1e4f0u32, 0x1e950u32,
    ];
    assert(zeroes@ =~= decimal_zeroes());
    let scalar = character as u32;
    proof {
        lemma_digit_below_ten(scalar, 0);
    }
    let mut k: usize = 0;
    while k < zeroes.len()
        invariant
            zeroes@ == decimal_zeroes(),
            scalar == character as u32,
            k <= 67,
            digit_from_block(scalar, 0) == digit_from_block(scalar, k as int),
        decreases 67 - k,
    {
        let zero = zeroes[k];
        assert(decimal_zeroes()[k as int] == zero);
        if zero <= scalar && scalar - zero < 10 {
            return Some((scalar - zero) as u8);
        }
        k = k + 1;
    }
    None
}

/// The UTF-8 bytes of `chars` with every Unicode decimal digit written as its ASCII digit.
pub open spec fn normalized_bytes(chars: Seq<char>) -> Seq<u8>
    decreases chars.len(),
{
    if chars.len() == 0 {
        Seq::empty()
    } else {
        normalized_bytes(chars.drop_last()) + match decimal_digit(chars.last()) {
            Some(d) => seq![(0x30 + d) as u8],
            None => encode_scalar(chars.last() as u32),
        }
    }
}

/// Whether a character is a decimal digit other than an ASCII one.
pub open spec fn is_foreign_digit(c: char) -> bool {
    decimal_digit(c) matches Some(d) && c as u32 != 0x30 + d
}

/// Whether `chars` hold a decimal digit other than an ASCII one.
pub open spec fn has_foreign_digit(chars: Seq<char>) -> bool {
    exists|i: int| 0 <= i < chars.len() && #[trigger] is_foreign_digit(chars[i])
}

proof fn lemma_normalized_valid(chars: Seq<char>)
    ensures
        valid_utf8(normalized_bytes(chars)),
    decreases chars.len(),
{
    if chars.len() > 0 {
        lemma_normalized_valid(chars.drop_last());
        let c = chars.last();
        lemma_digit_below_ten(c as u32, 0);
        match decimal_digit(c) {
            Some(d) => {
                crate::scanner::lemma_ascii_valid(seq![(0x30 + d) as u8]);
            },
            None => {
                assert(encode_utf8(seq![c]) =~= encode_scalar(c as u32)) by {
                    assert(seq![c].drop_first() =~= Seq::<char>::empty());
                    assert(encode_utf8(Seq::<char>::empty()) =~= Seq::<u8>::empty());
                }
            },
        }
        let piece = match decimal_digit(c) {
            Some(d) => seq![(0x30 + d) as u8],
            None => encode_scalar(c as u32),
        };
        vstd::utf8::valid_utf8_concat(normalized_bytes(chars.drop_last()), piece);
    }
}

fn push_encoded(out: &mut Vec<u8>, c: char)
    ensures
        final(out)@ == old(out)@ + encode_scalar(c as u32),
{
    let v = c as u32;
    proof {
        vstd::utf8::char_is_scalar(c);
    }
    if v <= 0x7f {
        out.push((v & 0x7f) as u8);
    } else if v <= 0x7ff {
        out.push(0xc0 | ((v >> 6) & 0x1f) as u8);
        out.push(0x80 | (v & 0x3f) as u8);
    } else if v <= 0xffff {
        out.push(0xe0 | ((v >> 12) & 0x0f) as u8);
        out.push(0x80 | ((v >> 6) & 0x3f) as u8);
        out.push(0x80 | (v & 0x3f) as u8);
    } else {
        out.push(0xf0 | ((v >> 18) & 0x7) as u8);
        out.push(0x80 | ((v >> 12) & 0x3f) as u8);
        out.push(0x80 | ((v >> 6) & 0x3f) as u8);
        out.push(0x80 | (v & 0x3f) as u8);
    }
}

/// A simple string literal with its Unicode decimal digits written as ASCII
/// digits; `None` when the source is not a simple literal or has no digit to
/// rewrite.
pub fn normalize_unicode_decimal_literal(source: &str) -> (normalized: Option<String>)
    ensures
        normalized is Some <==> simple_literal(source.spec_bytes()) && has_foreign_digit(source@),
        normalized matches Some(text) ==> utf8(text@) == normalized_bytes(source@),
{
    if simple_string_literal_contents(source).is_none() {
        return None;
    }
    let count = source.unicode_len();
    let mut out: Vec<u8> = Vec::new();
    let mut changed = false;
    let mut i: usize = 0;
    while i < count
        invariant
            count == source@.len(),
            i <= count,
            out@ == normalized_bytes(source@.take(i as int)),
            changed == has_foreign_digit(source@.take(i as int)),
        decreases count - i,
    {
        let c = source.get_char(i);
        let ghost done = source@.take(i as int);
        proof {
            assert(source@.take(i + 1).drop_last() =~= done);
            assert(source@.take(i + 1).last() == c);
        }
        match unicode_decimal_digit(c) {
            Some(d) => {
                out.push(0x30 + d);
                if (c as u32) != 0x30 + d as u32 {
                    changed = true;
                }
            },
            None => push_encoded(&mut out, c),
        }
        proof {
            let next = source@.take(i + 1);
            assert(next[i as int] == c);
            assert forall|j: int| 0 <= j < i implies next[j] == done[j] by {}
            if is_foreign_digit(c) {
                assert(is_foreign_digit(next[i as int]));
            }
            if has_foreign_digit(done) {
                let j = choose|j: int| 0 <= j < done.len() && #[trigger] is_foreign_digit(done[j]);
                assert(is_foreign_digit(next[j]));
            }
            if has_foreign_digit(next) {
                let j = choose|j: int| 0 <= j < next.len() && #[trigger] is_foreign_digit(next[j]);
                if j < i {
                    assert(is_foreign_digit(done[j]));
                }
            }
        }
        i = i + 1;
    }
    proof {
        assert(source@.take(count as int) =~= source@);
        lemma_normalized_valid(source@);
    }
    if !changed {
        return None;
    }
    Some(crate::text::string_from_valid_utf8(out))
}


/// A complete valid prefix of valid UTF-8 ends on a character boundary.
proof fn lemma_valid_prefix_is_boundary(bytes: Seq<u8>, k: int)
    requires
        valid_utf8(bytes),
        0 <= k <= bytes.len(),
        valid_utf8(bytes.subrange(0, k)),
    ensures
        is_char_boundary(bytes, k),
    decreases k,
{
    if k > 0 {
        let prefix = bytes.subrange(0, k);
        assert(prefix[0] == bytes[0]);
        let w = length_of_first_scalar(bytes);
        assert(length_of_first_scalar(prefix) == w);
        let rest = pop_first_scalar(bytes);
        assert(rest.subrange(0, k - w) =~= pop_first_scalar(prefix));
        lemma_valid_prefix_is_boundary(rest, k - w);
    }
}

/// Where the line that starts at `start` ends: just past its newline, or at the end.
pub open spec fn line_end_at(bytes: Seq<u8>, start: int) -> int {
    match first_byte_from(bytes, start, 0x0a) {
        Some(i) => i + 1,
        None => bytes.len() as int,
    }
}

/// One line, newline included, moved from `old_indent` to `new_indent`: a
/// blank line stays as it is, a line that begins with the old indentation
/// has it replaced, and any other line gets the new indentation in front.
pub open spec fn reindented_line(line: Seq<u8>, old_indent: Seq<char>, new_indent: Seq<char>) -> Seq<u8> {
    if crate::lines::trimmed(decode_utf8(line)).len() == 0 {
        line
    } else if crate::text::has_prefix_at(line, 0, utf8(old_indent)) {
        utf8(new_indent) + line.subrange(utf8(old_indent).len() as int, line.len() as int)
    } else {
        utf8(new_indent) + line
    }
}

/// The lines of `bytes` from `start` on, each moved to the new indentation.
pub open spec fn reindented_from(bytes: Seq<u8>, start: int, old_indent: Seq<char>, new_indent: Seq<char>) -> Seq<u8>
    decreases bytes.len() - start,
{
    let end = line_end_at(bytes, start);
    if start < 0 || start >= bytes.len() || end <= start || end > bytes.len() {
        Seq::empty()
    } else {
        reindented_line(bytes.subrange(start, end), old_indent, new_indent) + reindented_from(
            bytes,
            end,
            old_indent,
            new_indent,
        )
    }
}

/// Move every line of `block` from `old_indent` to `new_indent`.
pub fn reindent_text(block: &str, old_indent: &str, new_indent: &str) -> (text: String)
    ensures
        utf8(text@) == reindented_from(block.spec_bytes(), 0, old_indent@, new_indent@),
{
    let bytes = block.as_bytes();
    let ghost all = bytes@;
    let mut out: Vec<u8> = Vec::new();
    let mut start: usize = 0;
    proof {
        vstd::utf8::is_char_boundary_start_end_of_seq(all);
    }
    while start < bytes.len()
        invariant
            all == bytes@,
            all == block.spec_bytes(),
            start <= all.len(),
            is_char_boundary(all, start as int),
            valid_utf8(out@),
            out@ + reindented_from(all, start as int, old_indent@, new_indent@) == reindented_from(
                all,
                0,
                old_indent@,
                new_indent@,
            ),
        decreases all.len() - start,
    {
        let end = match find_byte(bytes, start, 0x0a) {
            Some(i) => {
                proof {
                    crate::text::lemma_ascii_is_boundary(all, i as int);
                    lemma_boundary_after_ascii(all, i as int);
                }
                i + 1
            },
            None => {
                proof {
                    vstd::utf8::is_char_boundary_start_end_of_seq(all);
                }
                bytes.len()
            },
        };
        assert(end == line_end_at(all, start as int));
        let line = str_range(block, start, end);
        let ghost before = out@;
        let ghost piece = reindented_line(line.spec_bytes(), old_indent@, new_indent@);
        if crate::lines::trim(line).is_empty() {
            crate::text::push_all(&mut out, line.as_bytes());
        } else if crate::text::starts_with_at(line.as_bytes(), 0, old_indent.as_bytes()) {
            let k = old_indent.as_bytes().len();
            proof {
                let lb = line.spec_bytes();
                assert(lb.subrange(0, k as int) == utf8(old_indent@));
                lemma_valid_prefix_is_boundary(lb, k as int);
                vstd::utf8::is_char_boundary_start_end_of_seq(lb);
            }
            let rest = str_range(line, k, line.as_bytes().len());
            crate::text::push_all(&mut out, new_indent.as_bytes());
            crate::text::push_all(&mut out, rest.as_bytes());
            proof {
                vstd::utf8::valid_utf8_concat(before, new_indent.spec_bytes());
                vstd::utf8::valid_utf8_concat(before + new_indent.spec_bytes(), rest.spec_bytes());
                assert(out@ =~= before + piece);
            }
        } else {
            crate::text::push_all(&mut out, new_indent.as_bytes());
            crate::text::push_all(&mut out, line.as_bytes());
            proof {
                vstd::utf8::valid_utf8_concat(before, new_indent.spec_bytes());
                vstd::utf8::valid_utf8_concat(before + new_indent.spec_bytes(), line.spec_bytes());
                assert(out@ =~= before + piece);
            }
        }
        proof {
            vstd::utf8::valid_utf8_concat(before, line.spec_bytes());
            assert(out@ == before + piece);
            assert(reindented_from(all, start as int, old_indent@, new_indent@) == piece + reindented_from(
                all,
                end as int,
                old_indent@,
                new_indent@,
            ));
            assert(before + (piece + reindented_from(all, end as int, old_indent@, new_indent@)) =~= out@
                + reindented_from(all, end as int, old_indent@, new_indent@));
        }
        start = end;
    }
    proof {
        assert(out@ + Seq::<u8>::empty() =~= out@);
    }
    crate::text::string_from_valid_utf8(out)
}

/// The two lowercase hexadecimal digits of a byte.
pub open spec fn hex_digit(value: u8) -> u8 {
    if value < 10 {
        (0x30 + value) as u8
    } else {
        (0x61 + value - 10) as u8
    }
}

/// A byte as it is written inside a Python bytes literal: backslash and
/// double quote escaped, printable ASCII as itself, anything else as `\xNN`.
pub open spec fn escaped_byte(value: u8) -> Seq<u8> {
    if value == 0x5c {
        seq![0x5cu8, 0x5cu8]
    } else if value == 0x22 {
        seq![0x5cu8, 0x22u8]
    } else if 0x20 <= value <= 0x7e {
        seq![value]
    } else {
        seq![0x5cu8, 0x78u8, hex_digit(value / 16), hex_digit(value % 16)]
    }
}

/// The escaped forms of `values`, one after another.
pub open spec fn escaped_bytes(values: Seq<u8>) -> Seq<u8>
    decreases values.len(),
{
    if values.len() == 0 {
        Seq::empty()
    } else {
        escaped_bytes(values.drop_last()) + escaped_byte(values.last())
    }
}

/// The text of the Python bytes literal `b"..."` that holds exactly `values`.
pub open spec fn bytes_literal(values: Seq<u8>) -> Seq<u8> {
    seq![0x62u8, 0x22u8] + escaped_bytes(values) + seq![0x22u8]
}

proof fn lemma_escaped_ascii(values: Seq<u8>)
    ensures
        forall|i: int| 0 <= i < escaped_bytes(values).len() ==> #[trigger] escaped_bytes(values)[i] < 0x80,
    decreases values.len(),
{
    if values.len() > 0 {
        lemma_escaped_ascii(values.drop_last());
        let prefix = escaped_bytes(values.drop_last());
        let piece = escaped_byte(values.last());
        assert forall|i: int| 0 <= i < escaped_bytes(values).len() implies #[trigger] escaped_bytes(values)[i] < 0x80 by {
            if i >= prefix.len() {
                assert(escaped_bytes(values)[i] == piece[i - prefix.len()]);
            } else {
                assert(escaped_bytes(values)[i] == prefix[i]);
            }
        }
    }
}

fn hex_byte(value: u8) -> (digit: u8)
    requires
        value < 16,
    ensures
        digit == hex_digit(value),
{
    if value < 10 {
        0x30 + value
    } else {
        0x61 + value - 10
    }
}

/// Write byte values as the text of a Python bytes literal, as a list or
/// tuple of small integer constants is folded into one.
pub fn static_bytes_literal(values: &[u8]) -> (literal: String)
    ensures
        utf8(literal@) == bytes_literal(values@),
{
    let mut out: Vec<u8> = vec![0x62, 0x22];
    let mut i: usize = 0;
    while i < values.len()
        invariant
            i <= values@.len(),
            out@ == seq![0x62u8, 0x22u8] + escaped_bytes(values@.take(i as int)),
        decreases values@.len() - i,
    {
        let value = values[i];
        let ghost before = out@;
        if value == 0x5c {
            out.push(0x5c);
            out.push(0x5c);
        } else if value == 0x22 {
            out.push(0x5c);
            out.push(0x22);
        } else if 0x20 <= value && value <= 0x7e {
            out.push(value);
        } else {
            out.push(0x5c);
            out.push(0x78);
            out.push(hex_byte(value / 16));
            out.push(hex_byte(value % 16));
        }
        proof {
            assert(values@.take(i + 1).drop_last() =~= values@.take(i as int));
            assert(out@ =~= before + escaped_byte(value));
        }
        i = i + 1;
    }
    out.push(0x22);
    proof {
        assert(values@.take(values@.len() as int) =~= values@);
        let text = bytes_literal(values@);
        lemma_escaped_ascii(values@);
        assert(out@ =~= text);
        assert forall|k: int| 0 <= k < text.len() implies #[trigger] text[k] < 0x80 by {
            if 2 <= k < text.len() - 1 {
                assert(text[k] == escaped_bytes(values@)[k - 2]);
            }
        }
        crate::scanner::lemma_ascii_valid(text);
    }
    crate::text::string_from_valid_utf8(out)
}


/// The span of a suite of statements, from the start of the line of its first
/// statement (decorators included) to the end of the line of its last, when
/// both offsets cut the source and the span is not reversed.
pub open spec fn suite_span(bytes: Seq<u8>, first_start: int, last_end: int) -> Option<(int, int)> {
    if !cuts(bytes, first_start) || !cuts(bytes, last_end) {
        None
    } else {
        let start = line_start_of(bytes, first_start);
        let end = match first_byte_from(bytes, last_end, 0x0a) {
            Some(i) => i + 1,
            None => bytes.len() as int,
        };
        if start <= end {
            Some((start, end))
        } else {
            None
        }
    }
}

pub proof fn lemma_line_start_cuts(bytes: Seq<u8>, offset: int)
    requires
        valid_utf8(bytes),
        0 <= offset <= bytes.len(),
    ensures
        0 <= line_start_of(bytes, offset) <= offset,
        cuts(bytes, line_start_of(bytes, offset)),
    decreases offset,
{
    if offset <= 0 {
        vstd::utf8::is_char_boundary_start_end_of_seq(bytes);
    } else if bytes[offset - 1] == 0x0a {
        crate::text::lemma_ascii_is_boundary(bytes, offset - 1);
        lemma_boundary_after_ascii(bytes, offset - 1);
    } else {
        lemma_line_start_cuts(bytes, offset - 1);
    }
}

/// Move a suite of statements to `new_indent`: the span from the line of its
/// first statement to the end of the line of its last, reindented from the
/// indentation in front of its first statement. `first_start` and `last_end`
/// are the byte offsets where the suite's first statement (with its
/// decorators) begins and its last statement ends.
pub fn reindent_suite(source: &str, first_start: usize, last_end: usize, new_indent: &str) -> (text: Option<String>)
    ensures
        match suite_span(source.spec_bytes(), first_start as int, last_end as int) {
            Some((start, end)) => text matches Some(t) && utf8(t@) == reindented_from(
                source.spec_bytes().subrange(start, end),
                0,
                decode_utf8(source.spec_bytes().subrange(start, first_start as int)),
                new_indent@,
            ),
            None => text is None,
        },
{
    let start = line_start(source, first_start)?;
    let end = line_end_including_newline(source, last_end)?;
    if start > end {
        return None;
    }
    let ghost bytes = source.spec_bytes();
    proof {
        lemma_line_start_cuts(bytes, first_start as int);
        crate::text::lemma_first_byte_found(bytes, last_end as int, 0x0a);
        match first_byte_from(bytes, last_end as int, 0x0a) {
            Some(i) => {
                crate::text::lemma_ascii_is_boundary(bytes, i);
                lemma_boundary_after_ascii(bytes, i);
            },
            None => {
                vstd::utf8::is_char_boundary_start_end_of_seq(bytes);
            },
        }
    }
    let old_indent = str_range(source, start, first_start);
    let block = str_range(source, start, end);
    Some(reindent_text(block, old_indent, new_indent))
}

} // verus!
