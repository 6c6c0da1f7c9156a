//! Checked application of non-overlapping byte-range source edits.

use vstd::prelude::*;
use vstd::utf8::*;
use vstd::string::StringSliceAdditionalSpecFns;

use crate::text::{push_all, push_range, string_from_valid_utf8, utf8};

verus! {

broadcast use vstd::utf8::encode_utf8_valid_utf8, vstd::utf8::valid_utf8_concat,
    vstd::utf8::valid_utf8_split;

/// Replace the UTF-8 byte range `start..end` of the original source.
#[derive(Debug)]
pub struct Edit {
    pub start: usize,
    pub end: usize,
    pub replacement: String,
}

/// Why a set of edits cannot be applied to a source.
#[derive(Debug, Clone, Copy)]
pub enum EditError {
    InvalidRange { start: usize, end: usize, source_len: usize },
    NonCharacterBoundary { offset: usize },
    Conflict { first: (usize, usize), second: (usize, usize) },
}

/// The first check that rejects one edit, in the order range, start, end.
pub open spec fn edit_check(source: Seq<u8>, edit: Edit) -> Option<EditError> {
    if edit.start > edit.end || edit.end > source.len() {
        Some(
            EditError::InvalidRange {
                start: edit.start,
                end: edit.end,
                source_len: source.len() as usize,
            },
        )
    } else if !is_char_boundary(source, edit.start as int) {
        Some(EditError::NonCharacterBoundary { offset: edit.start })
    } else if !is_char_boundary(source, edit.end as int) {
        Some(EditError::NonCharacterBoundary { offset: edit.end })
    } else {
        None
    }
}

/// The rejection of the first invalid edit, in the caller's order.
pub open spec fn first_invalid(source: Seq<u8>, edits: Seq<Edit>) -> Option<EditError>
    decreases edits.len(),
{
    if edits.len() == 0 {
        None
    } else {
        match edit_check(source, edits[0]) {
            Some(error) => Some(error),
            None => first_invalid(source, edits.drop_first()),
        }
    }
}

/// Edits are ordered by start offset, then by end offset.
pub open spec fn key_le(a: Edit, b: Edit) -> bool {
    a.start < b.start || (a.start == b.start && a.end <= b.end)
}

/// Insert `edit` into an ordered sequence after every element whose key is
/// not greater than its own.
pub open spec fn insert_sorted(sorted: Seq<Edit>, edit: Edit) -> Seq<Edit>
    decreases sorted.len(),
{
    if sorted.len() == 0 {
        seq![edit]
    } else if key_le(sorted.last(), edit) {
        sorted.push(edit)
    } else {
        insert_sorted(sorted.drop_last(), edit).push(sorted.last())
    }
}

/// The stable ordering of edits by `(start, end)`.
pub open spec fn stable_sorted(edits: Seq<Edit>) -> Seq<Edit>
    decreases edits.len(),
{
    if edits.len() == 0 {
        edits
    } else {
        insert_sorted(stable_sorted(edits.drop_last()), edits.last())
    }
}

/// The first adjacent pair, from position `from` on, whose ranges overlap.
pub open spec fn first_conflict_from(sorted: Seq<Edit>, from: int) -> Option<EditError>
    decreases sorted.len() - from,
{
    if from < 0 || from + 1 >= sorted.len() {
        None
    } else if sorted[from + 1].start < sorted[from].end {
        Some(
            EditError::Conflict {
                first: (sorted[from].start, sorted[from].end),
                second: (sorted[from + 1].start, sorted[from + 1].end),
            },
        )
    } else {
        first_conflict_from(sorted, from + 1)
    }
}

/// Where the unchanged text before the `k`-th ordered edit begins.
pub open spec fn cursor_before(sorted: Seq<Edit>, k: int) -> int {
    if k <= 0 {
        0
    } else {
        sorted[k - 1].end as int
    }
}

/// The output after the first `k` ordered edits, without the unchanged tail.
pub open spec fn spliced_prefix(source: Seq<u8>, sorted: Seq<Edit>, k: int) -> Seq<u8>
    decreases k,
{
    if k <= 0 {
        Seq::empty()
    } else {
        spliced_prefix(source, sorted, k - 1) + source.subrange(
            cursor_before(sorted, k - 1),
            sorted[k - 1].start as int,
        ) + utf8(sorted[k - 1].replacement@)
    }
}

/// The bytes of the source with every ordered edit applied at its original offsets.
pub open spec fn spliced(source: Seq<u8>, sorted: Seq<Edit>) -> Seq<u8> {
    spliced_prefix(source, sorted, sorted.len() as int) + source.subrange(
        cursor_before(sorted, sorted.len() as int),
        source.len() as int,
    )
}

/// What applying `edits` to `source` yields: the first rejection, or the edited bytes.
pub open spec fn edit_outcome(source: Seq<u8>, edits: Seq<Edit>) -> Result<Seq<u8>, EditError> {
    match first_invalid(source, edits) {
        Some(error) => Err(error),
        None => match first_conflict_from(stable_sorted(edits), 0) {
            Some(error) => Err(error),
            None => Ok(spliced(source, stable_sorted(edits))),
        },
    }
}

proof fn lemma_insert_sorted_at(sorted: Seq<Edit>, edit: Edit, j: int)
    requires
        0 <= j <= sorted.len(),
        forall|m: int| j <= m < sorted.len() ==> !key_le(#[trigger] sorted[m], edit),
        j == 0 || key_le(sorted[j - 1], edit),
    ensures
        insert_sorted(sorted, edit) == sorted.insert(j, edit),
    decreases sorted.len(),
{
    if sorted.len() == 0 {
        assert(sorted.insert(j, edit) =~= seq![edit]);
    } else if key_le(sorted.last(), edit) {
        assert(j == sorted.len());
        assert(sorted.insert(j, edit) =~= sorted.push(edit));
    } else {
        let rest = sorted.drop_last();
        assert(j < sorted.len());
        assert forall|m: int| j <= m < rest.len() implies !key_le(#[trigger] rest[m], edit) by {
            assert(rest[m] == sorted[m]);
        }
        lemma_insert_sorted_at(rest, edit, j);
        assert(rest.insert(j, edit).push(sorted.last()) =~= sorted.insert(j, edit));
    }
}

proof fn lemma_insert_sorted_len(sorted: Seq<Edit>, edit: Edit)
    ensures
        insert_sorted(sorted, edit).len() == sorted.len() + 1,
    decreases sorted.len(),
{
    if sorted.len() > 0 && !key_le(sorted.last(), edit) {
        lemma_insert_sorted_len(sorted.drop_last(), edit);
    }
}

proof fn lemma_stable_sorted_len(edits: Seq<Edit>)
    ensures
        stable_sorted(edits).len() == edits.len(),
    decreases edits.len(),
{
    if edits.len() > 0 {
        lemma_stable_sorted_len(edits.drop_last());
        lemma_insert_sorted_len(stable_sorted(edits.drop_last()), edits.last());
    }
}

proof fn lemma_first_invalid_skip(source: Seq<u8>, edits: Seq<Edit>, i: int)
    requires
        0 <= i < edits.len(),
    ensures
        first_invalid(source, edits.skip(i)) == match edit_check(source, edits[i]) {
            Some(error) => Some(error),
            None => first_invalid(source, edits.skip(i + 1)),
        },
{
    assert(edits.skip(i).drop_first() =~= edits.skip(i + 1));
}

/// Indices of `edits` in stable `(start, end)` order.
fn sorted_order(edits: &Vec<Edit>) -> (order: Vec<usize>)
    ensures
        order@.len() == edits@.len(),
        forall|k: int| 0 <= k < order@.len() ==> #[trigger] order@[k] < edits@.len(),
        order@.map_values(|k: usize| edits@[k as int]) == stable_sorted(edits@),
{
    let mut order: Vec<usize> = Vec::new();
    let mut i: usize = 0;
    while i < edits.len()
        invariant
            i <= edits@.len(),
            order@.len() == i,
            forall|k: int| 0 <= k < order@.len() ==> #[trigger] order@[k] < edits@.len(),
            order@.map_values(|k: usize| edits@[k as int]) == stable_sorted(edits@.take(i as int)),
        decreases edits@.len() - i,
    {
        let ghost before = order@.map_values(|k: usize| edits@[k as int]);
        let mut j = order.len();
        while j > 0 && !(edits[order[j - 1]].start < edits[i].start || (edits[order[j
            - 1]].start == edits[i].start && edits[order[j - 1]].end <= edits[i].end))
            invariant
                j <= order@.len(),
                order@.len() == i,
                i < edits@.len(),
                forall|k: int| 0 <= k < order@.len() ==> #[trigger] order@[k] < edits@.len(),
                before == order@.map_values(|k: usize| edits@[k as int]),
                forall|m: int| j <= m < before.len() ==> !key_le(#[trigger] before[m], edits@[i as int]),
            decreases j,
        {
            j = j - 1;
        }
        proof {
            lemma_insert_sorted_at(before, edits@[i as int], j as int);
            assert(edits@.take(i + 1).drop_last() =~= edits@.take(i as int));
            assert(edits@.take(i + 1).last() == edits@[i as int]);
        }
        order.insert(j, i);
        assert(order@.map_values(|k: usize| edits@[k as int]) =~= before.insert(
            j as int,
            edits@[i as int],
        ));
        i = i + 1;
    }
    assert(edits@.take(edits@.len() as int) =~= edits@);
    order
}

/// Applying no edits gives the source back unchanged.
pub proof fn lemma_no_edits(source: Seq<u8>)
    ensures
        edit_outcome(source, Seq::empty()) == Ok::<Seq<u8>, EditError>(source),
{
    assert(stable_sorted(Seq::<Edit>::empty()) =~= Seq::<Edit>::empty());
    assert(spliced(source, Seq::<Edit>::empty()) =~= source);
}

/// Apply edits whose ranges refer to the original source, so that earlier
/// replacements never shift the offsets of later ones.
pub fn apply_edits(source: &str, edits: Vec<Edit>) -> (result: Result<String, EditError>)
    ensures
        result is Ok <==> edit_outcome(source.spec_bytes(), edits@) is Ok,
        result matches Ok(text) ==> edit_outcome(source.spec_bytes(), edits@) == Ok::<
            Seq<u8>,
            EditError,
        >(utf8(text@)),
        result matches Err(error) ==> edit_outcome(source.spec_bytes(), edits@) == Err::<
            Seq<u8>,
            EditError,
        >(error),
{
    let bytes = source.as_bytes();
    let ghost src = source.spec_bytes();
    proof {
        vstd::utf8::encode_utf8_valid_utf8(source@);
        assert(edits@.skip(0) =~= edits@);
    }
    let mut i: usize = 0;
    while i < edits.len()
        invariant
            i <= edits@.len(),
            bytes@ == src,
            src == source.spec_bytes(),
            valid_utf8(src),
            first_invalid(src, edits@) == first_invalid(src, edits@.skip(i as int)),
        decreases edits@.len() - i,
    {
        proof {
            lemma_first_invalid_skip(src, edits@, i as int);
        }
        let edit = &edits[i];
        if edit.start > edit.end || edit.end > bytes.len() {
            return Err(
                EditError::InvalidRange { start: edit.start, end: edit.end, source_len: bytes.len() },
            );
        }
        if !source.is_char_boundary(edit.start) {
            return Err(EditError::NonCharacterBoundary { offset: edit.start });
        }
        if !source.is_char_boundary(edit.end) {
            return Err(EditError::NonCharacterBoundary { offset: edit.end });
        }
        i = i + 1;
    }
    assert(edits@.skip(edits@.len() as int) =~= Seq::<Edit>::empty());
    assert(first_invalid(src, edits@) is None);

    let order = sorted_order(&edits);
    let ghost sorted = stable_sorted(edits@);
    proof {
        lemma_stable_sorted_len(edits@);
    }
    let mut k: usize = 0;
    while order.len() > 0 && k < order.len() - 1
        invariant
            order@.len() == edits@.len(),
            forall|m: int| 0 <= m < order@.len() ==> #[trigger] order@[m] < edits@.len(),
            order@.map_values(|m: usize| edits@[m as int]) == sorted,
            sorted.len() == order@.len(),
            sorted == stable_sorted(edits@),
            src == source.spec_bytes(),
            first_invalid(src, edits@) is None,
            first_conflict_from(sorted, 0) == first_conflict_from(sorted, k as int),
            forall|m: int| 0 <= m < k && m + 1 < sorted.len() ==> sorted[m + 1].start >= sorted[m].end,
        decreases order@.len() - k,
    {
        let first = &edits[order[k]];
        let second = &edits[order[k + 1]];
        assert(sorted[k as int] == edits@[order@[k as int] as int]);
        assert(sorted[k + 1] == edits@[order@[k + 1] as int]);
        if second.start < first.end {
            return Err(
                EditError::Conflict {
                    first: (first.start, first.end),
                    second: (second.start, second.end),
                },
            );
        }
        k = k + 1;
    }
    assert(first_conflict_from(sorted, 0) is None);

    let mut output: Vec<u8> = Vec::new();
    let mut cursor: usize = 0;
    let mut k: usize = 0;
    while k < order.len()
        invariant
            order@.len() == edits@.len(),
            forall|m: int| 0 <= m < order@.len() ==> #[trigger] order@[m] < edits@.len(),
            order@.map_values(|m: usize| edits@[m as int]) == sorted,
            sorted.len() == order@.len(),
            bytes@ == src,
            src == source.spec_bytes(),
            valid_utf8(src),
            first_invalid(src, edits@) is None,
            forall|m: int| 0 <= m < sorted.len() - 1 ==> sorted[m + 1].start >= sorted[m].end,
            k <= order@.len(),
            cursor == cursor_before(sorted, k as int),
            cursor <= src.len(),
            is_char_boundary(src, cursor as int),
            output@ == spliced_prefix(src, sorted, k as int),
            valid_utf8(output@),
        decreases order@.len() - k,
    {
        let edit = &edits[order[k]];
        assert(sorted[k as int] == edits@[order@[k as int] as int]);
        proof {
            lemma_valid_edit(src, edits@, order@[k as int] as int);
            if k > 0 {
                assert(sorted[k as int].start >= sorted[k - 1].end);
            }
        }
        let ghost prior = output@;
        push_range(&mut output, bytes, cursor, edit.start);
        proof {
            lemma_valid_piece(src, cursor as int, edit.start as int);
            assert(valid_utf8(prior + src.subrange(cursor as int, edit.start as int)));
        }
        let ghost middle = output@;
        push_all(&mut output, edit.replacement.as_str().as_bytes());
        proof {
            assert(valid_utf8(middle + utf8(edit.replacement@)));
        }
        cursor = edit.end;
        k = k + 1;
    }
    push_range(&mut output, bytes, cursor, bytes.len());
    proof {
        vstd::utf8::is_char_boundary_start_end_of_seq(src);
        lemma_valid_piece(src, cursor as int, src.len() as int);
    }
    Ok(string_from_valid_utf8(output))
}

proof fn lemma_valid_edit(source: Seq<u8>, edits: Seq<Edit>, i: int)
    requires
        first_invalid(source, edits) is None,
        0 <= i < edits.len(),
    ensures
        edits[i].start <= edits[i].end <= source.len(),
        is_char_boundary(source, edits[i].start as int),
        is_char_boundary(source, edits[i].end as int),
    decreases i,
{
    if i > 0 {
        assert(edits.drop_first()[i - 1] == edits[i]);
        lemma_valid_edit(source, edits.drop_first(), i - 1);
    }
}

proof fn lemma_valid_piece(source: Seq<u8>, start: int, end: int)
    requires
        valid_utf8(source),
        0 <= start <= end <= source.len(),
        is_char_boundary(source, start),
        is_char_boundary(source, end),
    ensures
        valid_utf8(source.subrange(start, end)),
{
    let tail = source.subrange(start, source.len() as int);
    vstd::utf8::valid_utf8_split(source, start);
    assert(is_char_boundary(tail, end - start)) by {
        lemma_boundary_shift(source, start, end);
    }
    vstd::utf8::valid_utf8_split(tail, end - start);
    assert(tail.subrange(0, end - start) =~= source.subrange(start, end));
}

proof fn lemma_boundary_shift(source: Seq<u8>, start: int, end: int)
    requires
        valid_utf8(source),
        0 <= start <= end <= source.len(),
        is_char_boundary(source, start),
        is_char_boundary(source, end),
    ensures
        is_char_boundary(source.subrange(start, source.len() as int), end - start),
{
    let tail = source.subrange(start, source.len() as int);
    vstd::utf8::valid_utf8_split(source, start);
    if end == source.len() {
        vstd::utf8::is_char_boundary_start_end_of_seq(tail);
        assert(tail.len() == end - start);
    } else {
        vstd::utf8::is_char_boundary_iff_not_is_continuation_byte(source, end);
        vstd::utf8::is_char_boundary_iff_not_is_continuation_byte(tail, end - start);
        assert(tail[end - start] == source[end]);
    }
}

/// Every edit of `edits` is an in-bounds range whose ends are character boundaries.
pub open spec fn edits_in_range(source: Seq<u8>, edits: Seq<Edit>) -> bool {
    forall|i: int|
        0 <= i < edits.len() ==> {
            &&& #[trigger] edits[i].start <= edits[i].end
            &&& edits[i].end <= source.len()
            &&& is_char_boundary(source, edits[i].start as int)
            &&& is_char_boundary(source, edits[i].end as int)
        }
}

proof fn lemma_in_range_valid(source: Seq<u8>, edits: Seq<Edit>)
    requires
        edits_in_range(source, edits),
    ensures
        first_invalid(source, edits) is None,
    decreases edits.len(),
{
    if edits.len() > 0 {
        assert(edits_in_range(source, edits.drop_first())) by {
            assert forall|i: int| 0 <= i < edits.drop_first().len() implies #[trigger] edits.drop_first()[i] == edits[i
                + 1] by {}
        }
        assert(edits[0].start <= edits[0].end);
        lemma_in_range_valid(source, edits.drop_first());
    }
}

proof fn lemma_no_overlap_no_conflict(sorted: Seq<Edit>, from: int)
    requires
        0 <= from,
        forall|m: int| 0 <= m && m + 1 < sorted.len() ==> #[trigger] sorted[m].end <= sorted[m + 1].start,
    ensures
        first_conflict_from(sorted, from) is None,
    decreases sorted.len() - from,
{
    if from + 1 < sorted.len() {
        assert(sorted[from].end <= sorted[from + 1].start);
        lemma_no_overlap_no_conflict(sorted, from + 1);
    }
}

proof fn lemma_conflict_overlaps(sorted: Seq<Edit>, from: int)
    requires
        0 <= from,
    ensures
        first_conflict_from(sorted, from) matches Some(error) ==> exists|m: int|
            #![trigger sorted[m]]
            from <= m && m + 1 < sorted.len() && sorted[m + 1].start < sorted[m].end && error
                == (EditError::Conflict {
                first: (sorted[m].start, sorted[m].end),
                second: (sorted[m + 1].start, sorted[m + 1].end),
            }),
    decreases sorted.len() - from,
{
    if from + 1 < sorted.len() && !(sorted[from + 1].start < sorted[from].end) {
        lemma_conflict_overlaps(sorted, from + 1);
    }
}

proof fn lemma_invalid_is_no_conflict(source: Seq<u8>, edits: Seq<Edit>)
    ensures
        first_invalid(source, edits) matches Some(error) ==> !(error is Conflict),
    decreases edits.len(),
{
    if edits.len() > 0 {
        lemma_invalid_is_no_conflict(source, edits.drop_first());
    }
}

/// Edits that only touch never conflict: when every edit is an in-bounds
/// range on character boundaries and, in stable `(start, end)` order, each
/// edit starts at or after the end of the one before it, the edits apply.
pub proof fn lemma_touching_edits_apply(source: Seq<u8>, edits: Seq<Edit>)
    requires
        edits_in_range(source, edits),
        forall|m: int|
            0 <= m && m + 1 < stable_sorted(edits).len() ==> #[trigger] stable_sorted(edits)[m].end
                <= stable_sorted(edits)[m + 1].start,
    ensures
        edit_outcome(source, edits) is Ok,
{
    lemma_in_range_valid(source, edits);
    lemma_no_overlap_no_conflict(stable_sorted(edits), 0);
}

/// A conflict names two edits that are neighbours in stable `(start, end)`
/// order and really overlap: the second starts before the first ends.
pub proof fn lemma_conflicts_overlap(source: Seq<u8>, edits: Seq<Edit>)
    ensures
        edit_outcome(source, edits) matches Err(EditError::Conflict { first, second }) ==> exists|m: int|
            #![trigger stable_sorted(edits)[m]]
            0 <= m && m + 1 < stable_sorted(edits).len() && stable_sorted(edits)[m + 1].start
                < stable_sorted(edits)[m].end && first == (stable_sorted(edits)[m].start, stable_sorted(edits)[m].end)
                && second == (stable_sorted(edits)[m + 1].start, stable_sorted(edits)[m + 1].end),
{
    lemma_invalid_is_no_conflict(source, edits);
    lemma_conflict_overlaps(stable_sorted(edits), 0);
}

/// One in-bounds edit on character boundaries replaces exactly its range:
/// the text before `start`, then the replacement, then the text from `end` on.
pub proof fn lemma_single_edit(source: Seq<u8>, edit: Edit)
    requires
        edit.start <= edit.end <= source.len(),
        is_char_boundary(source, edit.start as int),
        is_char_boundary(source, edit.end as int),
    ensures
        edit_outcome(source, seq![edit]) == Ok::<Seq<u8>, EditError>(
            source.subrange(0, edit.start as int) + utf8(edit.replacement@) + source.subrange(
                edit.end as int,
                source.len() as int,
            ),
        ),
{
    let edits = seq![edit];
    assert(edits_in_range(source, edits));
    lemma_in_range_valid(source, edits);
    assert(edits.drop_last() =~= Seq::<Edit>::empty());
    assert(stable_sorted(Seq::<Edit>::empty()) == Seq::<Edit>::empty());
    assert(insert_sorted(Seq::<Edit>::empty(), edit) == seq![edit]);
    assert(edits.last() == edit);
    assert(stable_sorted(edits) == insert_sorted(stable_sorted(edits.drop_last()), edits.last()));
    assert(stable_sorted(edits) == seq![edit]);
    let sorted = stable_sorted(edits);
    assert(spliced_prefix(source, sorted, 0) == Seq::<u8>::empty());
    assert(spliced_prefix(source, sorted, 1) =~= source.subrange(0, edit.start as int) + utf8(
        edit.replacement@,
    ));
}

proof fn lemma_insert_sorted_from(sorted: Seq<Edit>, edit: Edit, k: int)
    requires
        0 <= k < insert_sorted(sorted, edit).len(),
    ensures
        insert_sorted(sorted, edit)[k] == edit || sorted.contains(insert_sorted(sorted, edit)[k]),
    decreases sorted.len(),
{
    lemma_insert_sorted_len(sorted, edit);
    if sorted.len() == 0 {
    } else if key_le(sorted.last(), edit) {
        if k < sorted.len() {
            assert(sorted.push(edit)[k] == sorted[k]);
        }
    } else {
        let rest = sorted.drop_last();
        lemma_insert_sorted_len(rest, edit);
        if k < insert_sorted(rest, edit).len() {
            lemma_insert_sorted_from(rest, edit, k);
            if rest.contains(insert_sorted(sorted, edit)[k]) {
                let j = choose|j: int| 0 <= j < rest.len() && rest[j] == insert_sorted(sorted, edit)[k];
                assert(sorted[j] == rest[j]);
            }
        } else {
            assert(insert_sorted(sorted, edit)[k] == sorted.last());
            assert(sorted[sorted.len() - 1] == sorted.last());
        }
    }
}

proof fn lemma_sorted_from_edits(edits: Seq<Edit>, k: int)
    requires
        0 <= k < stable_sorted(edits).len(),
    ensures
        edits.contains(stable_sorted(edits)[k]),
    decreases edits.len(),
{
    lemma_stable_sorted_len(edits);
    let rest = edits.drop_last();
    lemma_stable_sorted_len(rest);
    lemma_insert_sorted_from(stable_sorted(rest), edits.last(), k);
    let e = stable_sorted(edits)[k];
    if e == edits.last() {
        assert(edits[edits.len() - 1] == e);
    } else {
        let j = choose|j: int| 0 <= j < stable_sorted(rest).len() && stable_sorted(rest)[j] == e;
        lemma_sorted_from_edits(rest, j);
        let i = choose|i: int| 0 <= i < rest.len() && rest[i] == e;
        assert(edits[i] == e);
    }
}

proof fn lemma_identity_prefix(source: Seq<u8>, sorted: Seq<Edit>, k: int)
    requires
        0 <= k <= sorted.len(),
        forall|m: int|
            0 <= m < sorted.len() ==> #[trigger] sorted[m].start <= sorted[m].end && sorted[m].end <= source.len()
                && utf8(sorted[m].replacement@) == source.subrange(sorted[m].start as int, sorted[m].end as int),
        forall|m: int| 0 <= m && m + 1 < sorted.len() ==> #[trigger] sorted[m].end <= sorted[m + 1].start,
    ensures
        spliced_prefix(source, sorted, k) == source.subrange(0, cursor_before(sorted, k)),
    decreases k,
{
    if k > 0 {
        lemma_identity_prefix(source, sorted, k - 1);
        let e = sorted[k - 1];
        let c = cursor_before(sorted, k - 1);
        if k - 1 > 0 {
            assert(sorted[k - 2].end <= sorted[k - 1].start);
        }
        assert(0 <= c <= e.start);
        assert(source.subrange(0, c) + source.subrange(c, e.start as int) + source.subrange(
            e.start as int,
            e.end as int,
        ) =~= source.subrange(0, e.end as int));
    } else {
        assert(source.subrange(0, 0) =~= Seq::<u8>::empty());
    }
}

/// Edits that put back exactly the text they replace leave the source as it
/// was, however many there are and in whatever order they come, as long as
/// they do not overlap.
pub proof fn lemma_restoring_edits_are_identity(source: Seq<u8>, edits: Seq<Edit>)
    requires
        edits_in_range(source, edits),
        forall|i: int|
            0 <= i < edits.len() ==> utf8(#[trigger] edits[i].replacement@) == source.subrange(
                edits[i].start as int,
                edits[i].end as int,
            ),
        forall|m: int|
            0 <= m && m + 1 < stable_sorted(edits).len() ==> #[trigger] stable_sorted(edits)[m].end
                <= stable_sorted(edits)[m + 1].start,
    ensures
        edit_outcome(source, edits) == Ok::<Seq<u8>, EditError>(source),
{
    lemma_touching_edits_apply(source, edits);
    let sorted = stable_sorted(edits);
    lemma_stable_sorted_len(edits);
    assert forall|m: int| 0 <= m < sorted.len() implies #[trigger] sorted[m].start <= sorted[m].end
        && sorted[m].end <= source.len() && utf8(sorted[m].replacement@) == source.subrange(
        sorted[m].start as int,
        sorted[m].end as int,
    ) by {
        lemma_sorted_from_edits(edits, m);
        let i = choose|i: int| 0 <= i < edits.len() && edits[i] == sorted[m];
        assert(edits[i].start <= edits[i].end);
    }
    lemma_identity_prefix(source, sorted, sorted.len() as int);
    let c = cursor_before(sorted, sorted.len() as int);
    assert(0 <= c <= source.len());
    assert(source.subrange(0, c) + source.subrange(c, source.len() as int) =~= source);
}

} // verus!
