//! Which attributes each runtime type answers to, read from the `PyTrait`
//! implementations of a Monty release: the dispatch bodies, the helpers they
//! delegate to, and the guards that narrow an arm to some of the types.

use vstd::prelude::*;
use vstd::string::StringSliceAdditionalSpecFns;
use vstd::utf8::*;

use crate::capability_scan::{
    delimited_after, delimited_after_at, empty_set, first_group, insert_texts, lemma_push_to_set,
    set_insert, set_view, text_views, decoded,
};
use crate::extract::ExtractError;
use crate::ordered::TextMap;
use crate::scanner::{
    capture_views, captures_of, group_bytes, group_span, group_text, normalized_name,
    normalized_variant, regex_build_error, regex_captures, spans_well_placed,
};
use crate::text::{find_byte, first_byte_from, str_eq, str_range, utf8};
use crate::capability_scan::{all_group_texts, list_map_view, named_bodies, with_pairs, pair_views, insert_pairs, text_map_view};
use crate::scanner::{
    char_boundary_at, function_bodies, functions_of, rust_function_bodies, text_bytes, FUNCTION_HEADER,
};
use crate::discovery::contains_bytes;
use crate::capability_scan::{contains_text, known_names, lookup_names, static_variants, STATIC_VARIANT};
use crate::lines::{lines, lines_of};

verus! {

broadcast use vstd::utf8::encode_utf8_valid_utf8, vstd::utf8::encode_utf8_decode_utf8;

/// The keys of a map, in ascending order.
pub fn keys_of<V>(map: &TextMap<V>) -> (keys: Vec<String>)
    requires
        map.wf(),
    ensures
        text_views(keys@) == map.key_seq(),
{
    let mut keys: Vec<String> = Vec::new();
    let mut i: usize = 0;
    while i < map.len()
        invariant
            map.wf(),
            i <= map.key_seq().len(),
            text_views(keys@) == map.key_seq().take(i as int),
        decreases map.key_seq().len() - i,
    {
        let (key, _) = map.entry_at(i);
        let ghost before = keys@;
        keys.push(key.clone());
        assert(text_views(keys@) =~= text_views(before).push(key@));
        assert(map.key_seq().take(i + 1) =~= map.key_seq().take(i as int).push(map.key_seq()[i as int]));
        i = i + 1;
    }
    assert(map.key_seq().take(map.key_seq().len() as int) =~= map.key_seq());
    keys
}

/// The keys of a set of texts, as a sequence.
pub proof fn lemma_set_keys(set: TextMap<()>)
    ensures
        set_view(set) == set.key_seq().to_set(),
{
    assert(set_view(set) =~= set.key_seq().to_set());
}

/// A sequence holds an item exactly when its set is not empty.
pub proof fn lemma_empty_to_set(items: Seq<Seq<char>>)
    ensures
        items.len() == 0 <==> items.to_set() == Set::<Seq<char>>::empty(),
{
    if items.len() > 0 {
        assert(items.to_set().contains(items[0]));
    } else {
        assert(items.to_set() =~= Set::<Seq<char>>::empty());
    }
}

/// A copy of a set of texts.
pub fn copy_set(set: &TextMap<()>) -> (copy: TextMap<()>)
    requires
        set.wf(),
    ensures
        copy.wf(),
        set_view(copy) == set_view(*set),
{
    let keys = keys_of(set);
    let mut copy = empty_set();
    insert_texts(&mut copy, keys);
    proof {
        lemma_set_keys(*set);
    }
    assert(set_view(copy) =~= set_view(*set));
    copy
}

/// The header of a `PyTrait` implementation.
pub const PYTRAIT_IMPLEMENTATION: &'static str = r"\bimpl(?:<[^{}]*>)?\s+PyTrait(?:<[^{}]*>)?\s+for\s+[^{}]*\{";

/// The braced body after each match, in order.
pub open spec fn bodies_after(bytes: Seq<u8>, captures: Seq<Seq<Option<(usize, usize)>>>) -> Seq<Seq<u8>>
    decreases captures.len(),
{
    if captures.len() == 0 {
        Seq::empty()
    } else {
        let earlier = bodies_after(bytes, captures.drop_last());
        match group_span(captures.last(), 0) {
            Some((start, _)) => match delimited_after(bytes, start, 0x7b, 0x7d) {
                Some(body) => earlier.push(body),
                None => earlier,
            },
            None => earlier,
        }
    }
}

/// Texts by their bytes.
pub open spec fn text_bytes_of(texts: Seq<String>) -> Seq<Seq<u8>> {
    texts.map_values(|text: String| utf8(text@))
}

/// The body of every `PyTrait` implementation of a source, in order.
pub fn pytrait_implementation_bodies(source: &str) -> (found: Result<Vec<String>, ExtractError>)
    ensures
        regex_build_error(PYTRAIT_IMPLEMENTATION@) is None ==> found is Ok,
        found matches Ok(bodies) ==> text_bytes_of(bodies@) == bodies_after(
            utf8(source@),
            regex_captures(PYTRAIT_IMPLEMENTATION@, source@),
        ),
        found matches Err(error) ==> error is InvalidPattern,
{
    let captures = match captures_of(PYTRAIT_IMPLEMENTATION, source) {
        Ok(captures) => captures,
        Err(error) => return Err(error),
    };
    let ghost caps = capture_views(captures@);
    let mut bodies: Vec<String> = Vec::new();
    let mut m: usize = 0;
    while m < captures.len()
        invariant
            caps == capture_views(captures@),
            caps == regex_captures(PYTRAIT_IMPLEMENTATION@, source@),
            spans_well_placed(caps, utf8(source@)),
            m <= captures@.len(),
            text_bytes_of(bodies@) == bodies_after(utf8(source@), caps.take(m as int)),
        decreases captures@.len() - m,
    {
        let groups = &captures[m];
        assert(caps[m as int] == groups@);
        assert(caps.take(m + 1).drop_last() =~= caps.take(m as int));
        assert(caps.take(m + 1).last() == groups@);
        let ghost before = bodies@;
        let start = match groups[0] {
            Some((start, _)) => start,
            None => 0,
        };
        if let Some(body) = delimited_after_at(source, start, 0x7b, 0x7d) {
            bodies.push(body.to_owned());
            assert(text_bytes_of(bodies@) =~= text_bytes_of(before).push(body.spec_bytes()));
        }
        m = m + 1;
    }
    assert(caps.take(captures@.len() as int) =~= caps);
    Ok(bodies)
}

/// A call of a named function, capturing the name.
pub const CALL: &'static str = r"\b([A-Za-z_]\w*)\s*\(";

/// A word naming the selected method or attribute.
pub const SELECTOR: &'static str = r"\b(?:method\w*|attr\w*|ss)\b";

/// Whether the selector pattern finds a match in a text.
pub open spec fn selects(text: Seq<char>) -> bool {
    regex_captures(SELECTOR@, text).len() > 0
}

/// Whether a text mentions the selected method or attribute.
pub fn mentions_selector(text: &str) -> (found: Result<bool, ExtractError>)
    ensures
        regex_build_error(SELECTOR@) is None ==> found is Ok,
        found matches Ok(b) ==> b == selects(text@),
        found matches Err(error) ==> error is InvalidPattern,
{
    let captures = match captures_of(SELECTOR, text) {
        Ok(captures) => captures,
        Err(error) => return Err(error),
    };
    Ok(captures.len() > 0)
}

/// The functions a dispatch body hands the selected name to, in order: each
/// call other than the dispatch entry points whose arguments mention it.
pub open spec fn dispatch_calls_spec(bytes: Seq<u8>, captures: Seq<Seq<Option<(usize, usize)>>>) -> Seq<Seq<char>>
    decreases captures.len(),
{
    if captures.len() == 0 {
        Seq::empty()
    } else {
        let earlier = dispatch_calls_spec(bytes, captures.drop_last());
        match (group_span(captures.last(), 0), group_bytes(bytes, captures.last(), 1)) {
            (Some((start, _)), Some(name)) => if decode_utf8(name) == "py_call_attr"@ || decode_utf8(name)
                == "py_getattr"@ {
                earlier
            } else {
                match delimited_after(bytes, start, 0x28, 0x29) {
                    Some(arguments) => if selects(decode_utf8(arguments)) {
                        earlier.push(decode_utf8(name))
                    } else {
                        earlier
                    },
                    None => earlier,
                }
            },
            _ => earlier,
        }
    }
}

/// The helpers a dispatch body delegates the selected name to.
pub fn delegated_dispatch_calls(body: &str) -> (found: Result<TextMap<()>, ExtractError>)
    ensures
        (regex_build_error(CALL@) is None && regex_build_error(SELECTOR@) is None) ==> found is Ok,
        found matches Ok(set) ==> set.wf() && set_view(set) == dispatch_calls_spec(
            utf8(body@),
            regex_captures(CALL@, body@),
        ).to_set(),
        found matches Err(error) ==> error is InvalidPattern,
{
    let captures = match captures_of(CALL, body) {
        Ok(captures) => captures,
        Err(error) => return Err(error),
    };
    match captures_of(SELECTOR, "") {
        Ok(_) => {},
        Err(error) => return Err(error),
    }
    let ghost caps = capture_views(captures@);
    let mut calls: Vec<String> = Vec::new();
    let mut m: usize = 0;
    while m < captures.len()
        invariant
            caps == capture_views(captures@),
            caps == regex_captures(CALL@, body@),
            spans_well_placed(caps, utf8(body@)),
            regex_build_error(SELECTOR@) is None,
            m <= captures@.len(),
            text_views(calls@) == dispatch_calls_spec(utf8(body@), caps.take(m as int)),
        decreases captures@.len() - m,
    {
        let groups = &captures[m];
        assert(caps[m as int] == groups@);
        assert(caps.take(m + 1).drop_last() =~= caps.take(m as int));
        assert(caps.take(m + 1).last() == groups@);
        let ghost before = calls@;
        let start = match groups[0] {
            Some((start, _)) => start,
            None => 0,
        };
        if let Some(name) = group_text(body, groups, 1) {
            if !str_eq(name, "py_call_attr") && !str_eq(name, "py_getattr") {
                if let Some(arguments) = delimited_after_at(body, start, 0x28, 0x29) {
                    let selected = match mentions_selector(arguments) {
                        Ok(selected) => selected,
                        Err(error) => return Err(error),
                    };
                    if selected {
                        calls.push(name.to_owned());
                        assert(text_views(calls@) =~= text_views(before).push(name@));
                    }
                }
            }
        }
        m = m + 1;
    }
    assert(caps.take(captures@.len() as int) =~= caps);
    let mut set = empty_set();
    insert_texts(&mut set, calls);
    assert(set_view(set) =~= Set::<Seq<char>>::empty() + text_views(calls@).to_set());
    Ok(set)
}

/// A type predicate call in a guard, capturing an optional negation and the type's name.
pub const TYPE_PREDICATE: &'static str = r"(!?)\s*is_([a-z_]+)\s*\(";

/// The variants whose normalized name is `predicate`.
pub open spec fn matching_variants(variants: Set<Seq<char>>, predicate: Seq<char>) -> Set<Seq<char>> {
    variants.filter(|v: Seq<char>| normalized_name(v) == predicate)
}

/// The variants the type predicates of a guard select: a predicate selects
/// the variants it names, a negated one all the others, and a predicate that
/// names no variant selects nothing.
pub open spec fn guard_selection(
    bytes: Seq<u8>,
    captures: Seq<Seq<Option<(usize, usize)>>>,
    variants: Set<Seq<char>>,
) -> Set<Seq<char>>
    decreases captures.len(),
{
    if captures.len() == 0 {
        Set::empty()
    } else {
        let earlier = guard_selection(bytes, captures.drop_last(), variants);
        match (group_bytes(bytes, captures.last(), 1), group_bytes(bytes, captures.last(), 2)) {
            (Some(negation), Some(predicate)) => {
                let matching = matching_variants(variants, normalized_name(decode_utf8(predicate)));
                if matching == Set::<Seq<char>>::empty() {
                    earlier
                } else if negation.len() == 0 {
                    earlier + matching
                } else {
                    earlier + variants.difference(matching)
                }
            },
            _ => earlier,
        }
    }
}

/// The variants an arm's guard applies to: those its type predicates select,
/// or all of them when there is no guard or it selects none.
pub open spec fn guarded_spec(guard: Option<Seq<char>>, variants: Set<Seq<char>>) -> Set<Seq<char>> {
    match guard {
        None => variants,
        Some(text) => {
            let captures = regex_captures(TYPE_PREDICATE@, text);
            let selected = guard_selection(utf8(text), captures, variants);
            if captures.len() == 0 || selected == Set::<Seq<char>>::empty() {
                variants
            } else {
                selected
            }
        },
    }
}

/// Filtering a set grown by one item.
pub proof fn lemma_filter_push(items: Seq<Seq<char>>, item: Seq<char>, keep: spec_fn(Seq<char>) -> bool)
    ensures
        items.push(item).to_set().filter(keep) == if keep(item) {
            items.to_set().filter(keep).insert(item)
        } else {
            items.to_set().filter(keep)
        },
{
    lemma_push_to_set(items, item);
    if keep(item) {
        assert(items.push(item).to_set().filter(keep) =~= items.to_set().filter(keep).insert(item));
    } else {
        assert(items.push(item).to_set().filter(keep) =~= items.to_set().filter(keep));
    }
}

/// The variants whose normalized name is `predicate`, and the others.
fn split_variants(keys: &Vec<String>, predicate: &str) -> (split: (Vec<String>, Vec<String>))
    ensures
        text_views(split.0@).to_set() == text_views(keys@).to_set().filter(
            |v: Seq<char>| normalized_name(v) == predicate@,
        ),
        text_views(split.1@).to_set() == text_views(keys@).to_set().filter(
            |v: Seq<char>| normalized_name(v) != predicate@,
        ),
{
    let ghost views = text_views(keys@);
    let ghost named = |v: Seq<char>| normalized_name(v) == predicate@;
    let ghost other = |v: Seq<char>| normalized_name(v) != predicate@;
    let mut matching: Vec<String> = Vec::new();
    let mut rest: Vec<String> = Vec::new();
    assert(views.take(0).to_set() =~= Set::<Seq<char>>::empty());
    assert(text_views(matching@).to_set() =~= Set::<Seq<char>>::empty());
    assert(views.take(0).to_set().filter(named) =~= Set::<Seq<char>>::empty());
    assert(views.take(0).to_set().filter(other) =~= Set::<Seq<char>>::empty());
    let mut i: usize = 0;
    while i < keys.len()
        invariant
            views == text_views(keys@),
            i <= keys@.len(),
            text_views(matching@).to_set() == views.take(i as int).to_set().filter(named),
            text_views(rest@).to_set() == views.take(i as int).to_set().filter(other),
            named == (|v: Seq<char>| normalized_name(v) == predicate@),
            other == (|v: Seq<char>| normalized_name(v) != predicate@),
        decreases keys@.len() - i,
    {
        let normalized = normalized_variant(keys[i].as_str());
        let key = keys[i].clone();
        proof {
            assert(views.take(i + 1) =~= views.take(i as int).push(views[i as int]));
            lemma_filter_push(views.take(i as int), views[i as int], named);
            lemma_filter_push(views.take(i as int), views[i as int], other);
        }
        if str_eq(normalized.as_str(), predicate) {
            let ghost before = text_views(matching@);
            matching.push(key);
            assert(text_views(matching@) =~= before.push(key@));
            proof {
                lemma_push_to_set(before, key@);
            }
        } else {
            let ghost before = text_views(rest@);
            rest.push(key);
            assert(text_views(rest@) =~= before.push(key@));
            proof {
                lemma_push_to_set(before, key@);
            }
        }
        i = i + 1;
    }
    assert(views.take(keys@.len() as int) =~= views);
    (matching, rest)
}

/// The variants a guard applies to.
pub fn guarded_type_variants(guard: Option<&str>, variants: &TextMap<()>) -> (found: Result<
    TextMap<()>,
    ExtractError,
>)
    requires
        variants.wf(),
    ensures
        regex_build_error(TYPE_PREDICATE@) is None ==> found is Ok,
        found matches Ok(set) ==> set.wf() && set_view(set) == guarded_spec(
            match guard {
                Some(text) => Some(text@),
                None => None,
            },
            set_view(*variants),
        ),
        found matches Err(error) ==> error is InvalidPattern,
{
    let guard = match guard {
        Some(guard) => guard,
        None => return Ok(copy_set(variants)),
    };
    let captures = match captures_of(TYPE_PREDICATE, guard) {
        Ok(captures) => captures,
        Err(error) => return Err(error),
    };
    if captures.len() == 0 {
        return Ok(copy_set(variants));
    }
    let keys = keys_of(variants);
    proof {
        lemma_set_keys(*variants);
    }
    let ghost all = set_view(*variants);
    let ghost caps = capture_views(captures@);
    let mut selected: Vec<String> = Vec::new();
    assert(text_views(selected@).to_set() =~= Set::<Seq<char>>::empty());
    let mut m: usize = 0;
    while m < captures.len()
        invariant
            variants.wf(),
            all == set_view(*variants),
            text_views(keys@).to_set() == all,
            caps == capture_views(captures@),
            caps == regex_captures(TYPE_PREDICATE@, guard@),
            spans_well_placed(caps, utf8(guard@)),
            m <= captures@.len(),
            text_views(selected@).to_set() == guard_selection(utf8(guard@), caps.take(m as int), all),
        decreases captures@.len() - m,
    {
        let groups = &captures[m];
        assert(caps[m as int] == groups@);
        assert(caps.take(m + 1).drop_last() =~= caps.take(m as int));
        assert(caps.take(m + 1).last() == groups@);
        let ghost before = text_views(selected@);
        match (group_text(guard, groups, 1), group_text(guard, groups, 2)) {
            (Some(negation), Some(predicate)) => {
                let normalized = normalized_variant(predicate);
                let (matching, rest) = split_variants(&keys, normalized.as_str());
                let ghost matched = matching_variants(all, normalized@);
                assert(matched =~= text_views(matching@).to_set());
                assert(all.difference(matched) =~= text_views(rest@).to_set());
                proof {
                    lemma_empty_to_set(text_views(matching@));
                }
                if matching.len() > 0 {
                    let added = if negation.as_bytes().len() == 0 {
                        matching
                    } else {
                        rest
                    };
                    let ghost piece = text_views(added@);
                    let mut j: usize = 0;
                    while j < added.len()
                        invariant
                            j <= added@.len(),
                            piece == text_views(added@),
                            text_views(selected@) == before + piece.take(j as int),
                        decreases added@.len() - j,
                    {
                        let ghost step = text_views(selected@);
                        selected.push(added[j].clone());
                        assert(text_views(selected@) =~= step.push(piece[j as int]));
                        assert(before + piece.take(j + 1) =~= (before + piece.take(j as int)).push(piece[j as int]));
                        j = j + 1;
                    }
                    assert(piece.take(added@.len() as int) =~= piece);
                    assert((before + piece).to_set() =~= before.to_set() + piece.to_set()) by {
                        assert forall|x: Seq<char>| (before + piece).contains(x) implies before.contains(x) || piece.contains(x) by {
                            let k = choose|k: int| 0 <= k < (before + piece).len() && (before + piece)[k] == x;
                            if k < before.len() {
                                assert(before[k] == x);
                            } else {
                                assert(piece[k - before.len()] == x);
                            }
                        }
                        assert forall|x: Seq<char>| before.contains(x) || piece.contains(x) implies (before + piece).contains(x) by {
                            if before.contains(x) {
                                let k = choose|k: int| 0 <= k < before.len() && before[k] == x;
                                assert((before + piece)[k] == x);
                            } else {
                                let k = choose|k: int| 0 <= k < piece.len() && piece[k] == x;
                                assert((before + piece)[before.len() + k] == x);
                            }
                        }
                    }
                }
            },
            _ => {},
        }
        m = m + 1;
    }
    assert(caps.take(captures@.len() as int) =~= caps);
    proof {
        lemma_empty_to_set(text_views(selected@));
    }
    if selected.len() == 0 {
        return Ok(copy_set(variants));
    }
    let mut set = empty_set();
    insert_texts(&mut set, selected);
    assert(set_view(set) =~= Set::<Seq<char>>::empty() + text_views(selected@).to_set());
    Ok(set)
}

/// The items of two sequences make up the union of their sets.
pub proof fn lemma_concat_to_set(first: Seq<Seq<char>>, second: Seq<Seq<char>>)
    ensures
        (first + second).to_set() == first.to_set() + second.to_set(),
{
    let both = first + second;
    assert forall|x: Seq<char>| both.contains(x) implies first.contains(x) || second.contains(x) by {
        let k = choose|k: int| 0 <= k < both.len() && both[k] == x;
        if k < first.len() {
            assert(first[k] == x);
        } else {
            assert(second[k - first.len()] == x);
        }
    }
    assert forall|x: Seq<char>| first.contains(x) || second.contains(x) implies both.contains(x) by {
        if first.contains(x) {
            let k = choose|k: int| 0 <= k < first.len() && first[k] == x;
            assert(both[k] == x);
        } else {
            let k = choose|k: int| 0 <= k < second.len() && second[k] == x;
            assert(both[first.len() + k] == x);
        }
    }
    assert(both.to_set() =~= first.to_set() + second.to_set());
}

/// Append every text of a list to another.
pub fn append_texts(out: &mut Vec<String>, items: Vec<String>)
    ensures
        text_views(final(out)@) == text_views(old(out)@) + text_views(items@),
{
    let ghost start = text_views(out@);
    let ghost piece = text_views(items@);
    let mut j: usize = 0;
    while j < items.len()
        invariant
            j <= items@.len(),
            piece == text_views(items@),
            text_views(out@) == start + piece.take(j as int),
        decreases items@.len() - j,
    {
        let ghost step = text_views(out@);
        out.push(items[j].clone());
        assert(text_views(out@) =~= step.push(piece[j as int]));
        assert(start + piece.take(j + 1) =~= (start + piece.take(j as int)).push(piece[j as int]));
        j = j + 1;
    }
    assert(piece.take(items@.len() as int) =~= piece);
}

/// A runtime type variant mentioned as `Type::Name`.
pub const RUNTIME_TYPE: &'static str = r"\bType::(\w+)";

/// The runtime type variants a text mentions, in order.
pub open spec fn runtime_types_in(text: Seq<char>) -> Seq<Seq<char>> {
    decoded(crate::capability_scan::group_texts(utf8(text), regex_captures(RUNTIME_TYPE@, text), 1))
}

/// The functions of a source by name and body text, a later function of a name
/// replacing an earlier one.
pub open spec fn local_functions(source: Seq<char>) -> Map<Seq<char>, Seq<char>> {
    with_pairs(
        Map::empty(),
        functions_of(utf8(source), regex_captures(FUNCTION_HEADER@, source)).map_values(
            |f: (Seq<u8>, Seq<u8>)| (decode_utf8(f.0), decode_utf8(f.1)),
        ),
    )
}

/// The runtime types the local helpers a body calls mention, call after call.
pub open spec fn helper_types(calls: Seq<Seq<char>>, helpers: Map<Seq<char>, Seq<char>>) -> Seq<Seq<char>>
    decreases calls.len(),
{
    if calls.len() == 0 {
        Seq::empty()
    } else {
        let earlier = helper_types(calls.drop_last(), helpers);
        if calls.last() != "py_type"@ && helpers.contains_key(calls.last()) {
            earlier + runtime_types_in(helpers[calls.last()])
        } else {
            earlier
        }
    }
}

/// The runtime types a `py_type` body mentions itself or through a helper it calls.
pub open spec fn body_types(body: Seq<char>, helpers: Map<Seq<char>, Seq<char>>) -> Seq<Seq<char>> {
    runtime_types_in(body) + helper_types(
        decoded(crate::capability_scan::group_texts(utf8(body), regex_captures(CALL@, body), 1)),
        helpers,
    )
}

/// The runtime types of every `py_type` body, body after body.
pub open spec fn all_body_types(bodies: Seq<Seq<u8>>, helpers: Map<Seq<char>, Seq<char>>) -> Seq<Seq<char>>
    decreases bodies.len(),
{
    if bodies.len() == 0 {
        Seq::empty()
    } else {
        all_body_types(bodies.drop_last(), helpers) + body_types(decode_utf8(bodies.last()), helpers)
    }
}

/// The runtime types a `PyTrait` implementation reports from `py_type`.
pub open spec fn runtime_type_variants_spec(implementation: Seq<char>, source: Seq<char>) -> Set<Seq<char>> {
    all_body_types(named_bodies(implementation, "py_type"@), local_functions(source)).to_set()
}

/// The patterns the runtime type reader uses all compile.
pub open spec fn runtime_patterns_compile() -> bool {
    &&& regex_build_error(RUNTIME_TYPE@) is None
    &&& regex_build_error(CALL@) is None
    &&& regex_build_error(FUNCTION_HEADER@) is None
}

fn runtime_types_of(text: &str) -> (found: Result<Vec<String>, ExtractError>)
    ensures
        regex_build_error(RUNTIME_TYPE@) is None ==> found is Ok,
        found matches Ok(types) ==> text_views(types@) == runtime_types_in(text@),
        found matches Err(error) ==> error is InvalidPattern,
{
    let types = match all_group_texts(RUNTIME_TYPE, text, 1) {
        Ok(types) => types,
        Err(error) => return Err(error),
    };
    assert(decoded(text_bytes(types@)) =~= text_views(types@));
    Ok(types)
}

/// The runtime types a `PyTrait` implementation's `py_type` can report.
#[verifier::spinoff_prover]
#[verifier::rlimit(80)]
pub fn runtime_type_variants(implementation: &str, source: &str) -> (found: Result<
    TextMap<()>,
    ExtractError,
>)
    ensures
        runtime_patterns_compile() ==> found is Ok,
        found matches Ok(set) ==> set.wf() && set_view(set) == runtime_type_variants_spec(
            implementation@,
            source@,
        ),
        found matches Err(error) ==> error is InvalidPattern,
{
    match captures_of(RUNTIME_TYPE, "") {
        Ok(_) => {},
        Err(error) => return Err(error),
    }
    match captures_of(CALL, "") {
        Ok(_) => {},
        Err(error) => return Err(error),
    }
    let functions = match rust_function_bodies(source) {
        Ok(functions) => functions,
        Err(error) => return Err(error),
    };
    let mut helpers: TextMap<String> = TextMap::new();
    assert(text_map_view(helpers) =~= Map::empty());
    proof {
        let listed = functions_of(utf8(source@), regex_captures(FUNCTION_HEADER@, source@));
        assert(pair_views(functions@) =~= listed.map_values(
            |f: (Seq<u8>, Seq<u8>)| (decode_utf8(f.0), decode_utf8(f.1)),
        )) by {
            assert forall|k: int| 0 <= k < functions@.len() implies #[trigger] pair_views(functions@)[k]
                == listed.map_values(|f: (Seq<u8>, Seq<u8>)| (decode_utf8(f.0), decode_utf8(f.1)))[k] by {
                assert(listed[k] == crate::scanner::pair_bytes(functions@[k]));
            }
        }
    }
    insert_pairs(&mut helpers, functions);
    let ghost local = text_map_view(helpers);
    let bodies = match function_bodies(implementation, "py_type") {
        Ok(bodies) => bodies,
        Err(error) => return Err(error),
    };
    let ghost all = bodies@.map_values(|body: String| utf8(body@));
    let mut variants: Vec<String> = Vec::new();
    let mut i: usize = 0;
    while i < bodies.len()
        invariant
            helpers.wf(),
            local == text_map_view(helpers),
            local == local_functions(source@),
            regex_build_error(RUNTIME_TYPE@) is None,
            regex_build_error(CALL@) is None,
            all == bodies@.map_values(|body: String| utf8(body@)),
            all == named_bodies(implementation@, "py_type"@),
            i <= bodies@.len(),
            text_views(variants@) == all_body_types(all.take(i as int), local),
        decreases bodies@.len() - i,
    {
        assert(all.take(i + 1).drop_last() =~= all.take(i as int));
        assert(all.take(i + 1).last() == utf8(bodies@[i as int]@));
        let body = bodies[i].as_str();
        let ghost before = text_views(variants@);
        let direct = match runtime_types_of(body) {
            Ok(types) => types,
            Err(error) => return Err(error),
        };
        append_texts(&mut variants, direct);
        let calls = match all_group_texts(CALL, body, 1) {
            Ok(calls) => calls,
            Err(error) => return Err(error),
        };
        let ghost names = text_views(calls@);
        assert(decoded(text_bytes(calls@)) =~= names);
        let ghost middle = text_views(variants@);
        let mut j: usize = 0;
        while j < calls.len()
            invariant
                helpers.wf(),
                local == text_map_view(helpers),
                regex_build_error(RUNTIME_TYPE@) is None,
                names == text_views(calls@),
                j <= calls@.len(),
                text_views(variants@) == middle + helper_types(names.take(j as int), local),
            decreases calls@.len() - j,
        {
            assert(names.take(j + 1).drop_last() =~= names.take(j as int));
            assert(names.take(j + 1).last() == calls@[j as int]@);
            let ghost step = helper_types(names.take(j as int), local);
            let name = calls[j].as_str();
            if !str_eq(name, "py_type") {
                if let Some(helper) = helpers.get(name) {
                    let found = match runtime_types_of(helper.as_str()) {
                        Ok(types) => types,
                        Err(error) => return Err(error),
                    };
                    append_texts(&mut variants, found);
                    assert(middle + step + runtime_types_in(helper@) =~= middle + (step + runtime_types_in(helper@)));
                }
            }
            j = j + 1;
        }
        assert(names.take(calls@.len() as int) =~= names);
        assert(text_views(variants@) =~= before + body_types(body@, local));
        i = i + 1;
    }
    assert(all.take(bodies@.len() as int) =~= all);
    let mut set = empty_set();
    insert_texts(&mut set, variants);
    assert(set_view(set) =~= Set::<Seq<char>>::empty() + text_views(variants@).to_set());
    Ok(set)
}

/// A map from texts to sets of texts by their views.
pub open spec fn sets_view(map: TextMap<TextMap<()>>) -> Map<Seq<char>, Set<Seq<char>>> {
    Map::new(|k: Seq<char>| map.view_map().contains_key(k), |k: Seq<char>| set_view(map.view_map()[k]))
}

/// The map and every set in it are well formed.
pub open spec fn sets_wf(map: TextMap<TextMap<()>>) -> bool {
    &&& map.wf()
    &&& forall|k: Seq<char>| #[trigger] map.view_map().contains_key(k) ==> map.view_map()[k].wf()
}

/// The set a key holds, empty when the key is absent.
pub open spec fn set_at(map: Map<Seq<char>, Set<Seq<char>>>, key: Seq<char>) -> Set<Seq<char>> {
    if map.contains_key(key) {
        map[key]
    } else {
        Set::empty()
    }
}

/// An empty map of sets.
pub fn empty_sets() -> (map: TextMap<TextMap<()>>)
    ensures
        sets_wf(map),
        sets_view(map) == Map::<Seq<char>, Set<Seq<char>>>::empty(),
{
    let map: TextMap<TextMap<()>> = TextMap::new();
    assert(sets_view(map) =~= Map::<Seq<char>, Set<Seq<char>>>::empty());
    map
}

/// Add every text of a list to the set a key holds, creating it when absent.
pub fn extend_set_at(map: &mut TextMap<TextMap<()>>, key: String, items: Vec<String>)
    requires
        sets_wf(*old(map)),
    ensures
        sets_wf(*final(map)),
        sets_view(*final(map)) == sets_view(*old(map)).insert(
            key@,
            set_at(sets_view(*old(map)), key@) + text_views(items@).to_set(),
        ),
{
    let ghost before = sets_view(*map);
    let mut inner = match map.remove(key.as_str()) {
        Some(inner) => inner,
        None => empty_set(),
    };
    assert(set_view(inner) == set_at(before, key@));
    insert_texts(&mut inner, items);
    let ghost grown = set_view(inner);
    map.insert(key, inner);
    assert(sets_view(*map) =~= before.insert(key@, grown));
}

/// A class method arm: `(Self::Variant, binding) if binding == StaticStrings::Name`.
pub const CLASS_METHOD_ARM: &'static str = r"\(\s*Self::(\w+)\s*,\s*(\w+)\s*\)\s*if\s+(\w+)\s*==\s*StaticStrings::(\w+)";

/// Whether the text within 500 bytes after `end` says the arm is not implemented.
pub open spec fn not_implemented_after(bytes: Seq<u8>, end: int) -> bool {
    let limit = if end + 500 < bytes.len() {
        end + 500
    } else {
        bytes.len() as int
    };
    end <= limit && is_char_boundary(bytes, limit) && contains_bytes(
        bytes.subrange(end, limit),
        utf8("not_implemented"@),
    )
}

/// The (variant, Python name) of each implemented class method arm, in order.
pub open spec fn class_method_entries(
    bytes: Seq<u8>,
    captures: Seq<Seq<Option<(usize, usize)>>>,
    names: Map<Seq<char>, Seq<char>>,
) -> Seq<(Seq<char>, Seq<char>)>
    decreases captures.len(),
{
    if captures.len() == 0 {
        Seq::empty()
    } else {
        let earlier = class_method_entries(bytes, captures.drop_last(), names);
        let groups = captures.last();
        match (
            group_span(groups, 0),
            group_bytes(bytes, groups, 1),
            group_bytes(bytes, groups, 2),
            group_bytes(bytes, groups, 3),
            group_bytes(bytes, groups, 4),
        ) {
            (Some((_, end)), Some(variant), Some(binding), Some(guard_binding), Some(name)) => if binding
                != guard_binding || not_implemented_after(bytes, end) || !names.contains_key(
                decode_utf8(name),
            ) {
                earlier
            } else {
                earlier.push((decode_utf8(variant), names[decode_utf8(name)]))
            },
            _ => earlier,
        }
    }
}

/// The sets of names each key collects from (key, name) entries.
pub open spec fn grouped(map: Map<Seq<char>, Set<Seq<char>>>, entries: Seq<(Seq<char>, Seq<char>)>) -> Map<
    Seq<char>,
    Set<Seq<char>>,
>
    decreases entries.len(),
{
    if entries.len() == 0 {
        map
    } else {
        let earlier = grouped(map, entries.drop_last());
        let (key, name) = entries.last();
        earlier.insert(key, set_at(earlier, key).insert(name))
    }
}

/// The class method entries of every body, body after body.
pub open spec fn class_entries_of(bodies: Seq<Seq<u8>>, names: Map<Seq<char>, Seq<char>>) -> Seq<
    (Seq<char>, Seq<char>),
>
    decreases bodies.len(),
{
    if bodies.len() == 0 {
        Seq::empty()
    } else {
        class_entries_of(bodies.drop_last(), names) + class_method_entries(
            bodies.last(),
            regex_captures(CLASS_METHOD_ARM@, decode_utf8(bodies.last())),
            names,
        )
    }
}

/// Grouping two runs of entries is grouping the first, then the second.
pub proof fn lemma_grouped_concat(
    map: Map<Seq<char>, Set<Seq<char>>>,
    first: Seq<(Seq<char>, Seq<char>)>,
    second: Seq<(Seq<char>, Seq<char>)>,
)
    ensures
        grouped(map, first + second) == grouped(grouped(map, first), second),
    decreases second.len(),
{
    if second.len() == 0 {
        assert(first + second =~= first);
    } else {
        assert((first + second).drop_last() =~= first + second.drop_last());
        lemma_grouped_concat(map, first, second.drop_last());
    }
}

/// The attributes each runtime type answers to through `call_class_method`.
pub fn class_method_attributes(source: &str, static_strings: &TextMap<String>) -> (found: Result<
    TextMap<TextMap<()>>,
    ExtractError,
>)
    requires
        static_strings.wf(),
    ensures
        (regex_build_error(CLASS_METHOD_ARM@) is None && regex_build_error(FUNCTION_HEADER@) is None)
            ==> found is Ok,
        found matches Ok(map) ==> sets_wf(map) && sets_view(map) == grouped(
            Map::empty(),
            class_entries_of(named_bodies(source@, "call_class_method"@), text_map_view(*static_strings)),
        ),
        found matches Err(error) ==> error is InvalidPattern,
{
    match captures_of(CLASS_METHOD_ARM, "") {
        Ok(_) => {},
        Err(error) => return Err(error),
    }
    let bodies = match function_bodies(source, "call_class_method") {
        Ok(bodies) => bodies,
        Err(error) => return Err(error),
    };
    let ghost all = bodies@.map_values(|body: String| utf8(body@));
    let ghost names = text_map_view(*static_strings);
    let mut attributes = empty_sets();
    let mut i: usize = 0;
    while i < bodies.len()
        invariant
            static_strings.wf(),
            names == text_map_view(*static_strings),
            sets_wf(attributes),
            regex_build_error(CLASS_METHOD_ARM@) is None,
            all == bodies@.map_values(|body: String| utf8(body@)),
            all == named_bodies(source@, "call_class_method"@),
            i <= bodies@.len(),
            sets_view(attributes) == grouped(Map::empty(), class_entries_of(all.take(i as int), names)),
        decreases bodies@.len() - i,
    {
        assert(all.take(i + 1).drop_last() =~= all.take(i as int));
        assert(all.take(i + 1).last() == utf8(bodies@[i as int]@));
        let body = bodies[i].as_str();
        let bytes = body.as_bytes();
        let captures = match captures_of(CLASS_METHOD_ARM, body) {
            Ok(captures) => captures,
            Err(error) => return Err(error),
        };
        let ghost caps = capture_views(captures@);
        let ghost start = sets_view(attributes);
        let ghost earlier = class_entries_of(all.take(i as int), names);
        let mut m: usize = 0;
        while m < captures.len()
            invariant
                static_strings.wf(),
                names == text_map_view(*static_strings),
                sets_wf(attributes),
                bytes@ == utf8(body@),
                caps == capture_views(captures@),
                caps == regex_captures(CLASS_METHOD_ARM@, body@),
                spans_well_placed(caps, utf8(body@)),
                start == grouped(Map::empty(), earlier),
                m <= captures@.len(),
                sets_view(attributes) == grouped(start, class_method_entries(utf8(body@), caps.take(m as int), names)),
            decreases captures@.len() - m,
        {
            let groups = &captures[m];
            assert(caps[m as int] == groups@);
            assert(caps.take(m + 1).drop_last() =~= caps.take(m as int));
            assert(caps.take(m + 1).last() == groups@);
            let end = match groups[0] {
                Some((_, end)) => end,
                None => 0,
            };
            assert(group_span(groups@, 0) matches Some((_, e)) && e == end);
            let ghost entries_before = class_method_entries(utf8(body@), caps.take(m as int), names);
            match (
                group_text(body, groups, 1),
                group_text(body, groups, 2),
                group_text(body, groups, 3),
                group_text(body, groups, 4),
            ) {
                (Some(variant), Some(binding), Some(guard_binding), Some(name)) => {
                    proof {
                        crate::text::lemma_utf8_injective(binding@, guard_binding@);
                    }
                    if str_eq(binding, guard_binding) {
                        let limit = if end < bytes.len() && bytes.len() - end > 500 {
                            end + 500
                        } else {
                            bytes.len()
                        };
                        let skipped = if end <= limit && char_boundary_at(body, limit) {
                            proof {
                                vstd::utf8::is_char_boundary_start_end_of_seq(utf8(body@));
                            }
                            let tail = str_range(body, end, limit);
                            contains_text(tail, "not_implemented")
                        } else {
                            false
                        };
                        assert(skipped == not_implemented_after(utf8(body@), end as int));
                        if !skipped {
                            if let Some(python) = static_strings.get(name) {
                                let ghost before = sets_view(attributes);
                                let mut one: Vec<String> = Vec::new();
                                one.push(python.clone());
                                extend_set_at(&mut attributes, variant.to_owned(), one);
                                assert(text_views(one@).to_set() =~= Set::<Seq<char>>::empty().insert(python@)) by {
                                    assert(text_views(one@) =~= Seq::<Seq<char>>::empty().push(python@));
                                    assert(Seq::<Seq<char>>::empty().to_set() =~= Set::<Seq<char>>::empty());
                                    lemma_push_to_set(Seq::<Seq<char>>::empty(), python@);
                                }
                                assert(set_at(before, variant@) + Set::<Seq<char>>::empty().insert(python@)
                                    =~= set_at(before, variant@).insert(python@));
                                assert(class_method_entries(utf8(body@), caps.take(m + 1), names)
                                    == entries_before.push((variant@, python@)));
                                assert(entries_before.push((variant@, python@)).drop_last() =~= entries_before);
                            }
                        }
                    }
                },
                _ => {},
            }
            assert(sets_view(attributes) == grouped(start, class_method_entries(utf8(body@), caps.take(m + 1), names)));
            m = m + 1;
        }
        assert(caps.take(captures@.len() as int) =~= caps);
        proof {
            lemma_grouped_concat(Map::empty(), earlier, class_method_entries(utf8(body@), caps, names));
        }
        i = i + 1;
    }
    assert(all.take(bodies@.len() as int) =~= all);
    Ok(attributes)
}

/// Whether each (variant, Python name) pair answers: the first verdict given
/// for a pair stands.
pub type Decisions = Map<(Seq<char>, Seq<char>), bool>;

/// The decisions after giving `supported` for `name` on every target variant
/// that has no verdict for it yet.
pub open spec fn propose(d: Decisions, targets: Set<Seq<char>>, name: Seq<char>, supported: bool) -> Decisions {
    Map::new(
        |k: (Seq<char>, Seq<char>)| d.contains_key(k) || (targets.contains(k.0) && k.1 == name),
        |k: (Seq<char>, Seq<char>)| if d.contains_key(k) {
            d[k]
        } else {
            supported
        },
    )
}

/// The decisions after proposing each name in turn.
pub open spec fn propose_names(d: Decisions, targets: Set<Seq<char>>, names: Seq<Seq<char>>, supported: bool) -> Decisions
    decreases names.len(),
{
    if names.len() == 0 {
        d
    } else {
        propose(propose_names(d, targets, names.drop_last(), supported), targets, names.last(), supported)
    }
}

/// The Python names of the `StaticStrings` variants a text mentions, in order.
pub open spec fn static_names_in(bytes: Seq<u8>, names: Map<Seq<char>, Seq<char>>) -> Seq<Seq<char>> {
    known_names(
        decoded(crate::capability_scan::group_texts(bytes, regex_captures(STATIC_VARIANT@, decode_utf8(bytes)), 1)),
        names,
    )
}

/// The Python names of the `StaticStrings` variants a text mentions.
pub fn static_names_of(text: &str, static_strings: &TextMap<String>) -> (found: Result<Vec<String>, ExtractError>)
    requires
        static_strings.wf(),
    ensures
        regex_build_error(STATIC_VARIANT@) is None ==> found is Ok,
        found matches Ok(names) ==> text_views(names@) == static_names_in(text.spec_bytes(), text_map_view(*static_strings)),
        found matches Err(error) ==> error is InvalidPattern,
{
    let variants = match static_variants(text) {
        Ok(variants) => variants,
        Err(error) => return Err(error),
    };
    assert(decoded(text_bytes(variants@)) =~= text_views(variants@));
    Ok(lookup_names(&variants, static_strings))
}

/// Decisions kept per variant, then per Python name.
pub open spec fn decisions_view(d: TextMap<TextMap<bool>>) -> Decisions {
    Map::new(
        |k: (Seq<char>, Seq<char>)| d.view_map().contains_key(k.0) && d.view_map()[k.0].view_map().contains_key(k.1),
        |k: (Seq<char>, Seq<char>)| d.view_map()[k.0].view_map()[k.1],
    )
}

pub open spec fn decisions_wf(d: TextMap<TextMap<bool>>) -> bool {
    &&& d.wf()
    &&& forall|k: Seq<char>| #[trigger] d.view_map().contains_key(k) ==> d.view_map()[k].wf()
}

/// Give a verdict for one pair unless it has one.
fn propose_one(d: &mut TextMap<TextMap<bool>>, variant: &str, name: &str, supported: bool)
    requires
        decisions_wf(*old(d)),
    ensures
        decisions_wf(*final(d)),
        decisions_view(*final(d)) == if decisions_view(*old(d)).contains_key((variant@, name@)) {
            decisions_view(*old(d))
        } else {
            decisions_view(*old(d)).insert((variant@, name@), supported)
        },
{
    let ghost before = decisions_view(*d);
    let ghost outer = d.view_map();
    match d.remove(variant) {
        Some(mut inner) => {
            assert(outer.contains_key(variant@));
            assert(inner == outer[variant@]);
            assert(inner.wf());
            let ghost inner_before = inner.view_map();
            if inner.get(name).is_none() {
                inner.insert(name.to_owned(), supported);
                d.insert(variant.to_owned(), inner);
                assert(decisions_view(*d) =~= before.insert((variant@, name@), supported));
            } else {
                d.insert(variant.to_owned(), inner);
                assert(decisions_view(*d) =~= before);
            }
        },
        None => {
            let mut inner: TextMap<bool> = TextMap::new();
            inner.insert(name.to_owned(), supported);
            d.insert(variant.to_owned(), inner);
            assert(decisions_view(*d) =~= before.insert((variant@, name@), supported));
        },
    }
}

/// Proposing a name to one more target.
proof fn lemma_propose_insert(d: Decisions, targets: Seq<Seq<char>>, target: Seq<char>, name: Seq<char>, supported: bool)
    ensures
        propose(d, targets.push(target).to_set(), name, supported) == {
            let earlier = propose(d, targets.to_set(), name, supported);
            if earlier.contains_key((target, name)) {
                earlier
            } else {
                earlier.insert((target, name), supported)
            }
        },
{
    lemma_push_to_set(targets, target);
    let earlier = propose(d, targets.to_set(), name, supported);
    let later = propose(d, targets.push(target).to_set(), name, supported);
    if earlier.contains_key((target, name)) {
        assert(later =~= earlier);
    } else {
        assert(later =~= earlier.insert((target, name), supported));
    }
}

/// Give a verdict for `name` on every target that has none for it.
fn propose_targets(d: &mut TextMap<TextMap<bool>>, targets: &Vec<String>, name: &str, supported: bool)
    requires
        decisions_wf(*old(d)),
    ensures
        decisions_wf(*final(d)),
        decisions_view(*final(d)) == propose(decisions_view(*old(d)), text_views(targets@).to_set(), name@, supported),
{
    let ghost start = decisions_view(*d);
    let ghost views = text_views(targets@);
    assert(propose(start, views.take(0).to_set(), name@, supported) =~= start);
    let mut j: usize = 0;
    while j < targets.len()
        invariant
            decisions_wf(*d),
            views == text_views(targets@),
            j <= targets@.len(),
            decisions_view(*d) == propose(start, views.take(j as int).to_set(), name@, supported),
        decreases targets@.len() - j,
    {
        proof {
            assert(views.take(j + 1) =~= views.take(j as int).push(views[j as int]));
            lemma_propose_insert(start, views.take(j as int), views[j as int], name@, supported);
        }
        propose_one(d, targets[j].as_str(), name, supported);
        j = j + 1;
    }
    assert(views.take(targets@.len() as int) =~= views);
}

/// Give a verdict for each name in turn on every target.
fn propose_all_names(d: &mut TextMap<TextMap<bool>>, targets: &Vec<String>, names: &Vec<String>, supported: bool)
    requires
        decisions_wf(*old(d)),
    ensures
        decisions_wf(*final(d)),
        decisions_view(*final(d)) == propose_names(
            decisions_view(*old(d)),
            text_views(targets@).to_set(),
            text_views(names@),
            supported,
        ),
{
    let ghost start = decisions_view(*d);
    let ghost views = text_views(names@);
    let mut j: usize = 0;
    while j < names.len()
        invariant
            decisions_wf(*d),
            views == text_views(names@),
            j <= names@.len(),
            decisions_view(*d) == propose_names(start, text_views(targets@).to_set(), views.take(j as int), supported),
        decreases names@.len() - j,
    {
        assert(views.take(j + 1).drop_last() =~= views.take(j as int));
        assert(views.take(j + 1).last() == names@[j as int]@);
        propose_targets(d, targets, names[j].as_str(), supported);
        j = j + 1;
    }
    assert(views.take(names@.len() as int) =~= views);
}

/// A `match` on a subject, capturing the subject.
pub const MATCH_HEADER: &'static str = r"\bmatch\s+([^{};]+?)\s*\{";

/// A match arm over `StaticStrings` variants with an optional guard: group 1
/// is the pattern, group 2 the guard.
pub const DISPATCH_ARM: &'static str = r"(?s)(?P<pattern>(?:Some\()?StaticStrings::\w+\)?(?:\s*\|\s*(?:Some\()?StaticStrings::\w+\)?)*)(?:\s+if\s+(?P<guard>.*?))?\s*=>";

/// An arm comparing its binding with one `StaticStrings` variant.
pub const EQUALITY_ARM: &'static str = r"Some\(\w+\)\s+if\s+\w+\s*==\s*StaticStrings::(\w+)\s*=>";

/// A `matches!(` invocation.
pub const MATCHES_MACRO: &'static str = r"\bmatches!\s*\(";

/// Where arm `i` ends: where the next arm starts, else at the end of the match body.
pub open spec fn arm_end(bytes: Seq<u8>, arms: Seq<Seq<Option<(usize, usize)>>>, i: int) -> int {
    if i + 1 < arms.len() {
        match group_span(arms[i + 1], 0) {
            Some((start, _)) => start,
            None => bytes.len() as int,
        }
    } else {
        bytes.len() as int
    }
}

/// The bytes from `from` to `to`, or nothing when that is no range of whole characters.
pub open spec fn text_between(bytes: Seq<u8>, from: int, to: int) -> Seq<u8> {
    if 0 <= from <= to <= bytes.len() && is_char_boundary(bytes, from) && is_char_boundary(bytes, to) {
        bytes.subrange(from, to)
    } else {
        Seq::empty()
    }
}

/// The group's text read back as characters, when it took part.
pub open spec fn group_chars(bytes: Seq<u8>, groups: Seq<Option<(usize, usize)>>, g: int) -> Option<Seq<char>> {
    match group_bytes(bytes, groups, g) {
        Some(found) => Some(decode_utf8(found)),
        None => None,
    }
}

/// The verdicts arm `i` gives: its names are supported on the variants its
/// guard applies to unless its body says `not_implemented(`.
pub open spec fn arm_step(
    d: Decisions,
    bytes: Seq<u8>,
    arms: Seq<Seq<Option<(usize, usize)>>>,
    i: int,
    variants: Set<Seq<char>>,
    names: Map<Seq<char>, Seq<char>>,
) -> Decisions {
    match group_span(arms[i], 0) {
        Some((_, end)) => {
            let supported = !contains_bytes(
                text_between(bytes, end, arm_end(bytes, arms, i)),
                utf8("not_implemented("@),
            );
            let targets = guarded_spec(group_chars(bytes, arms[i], 2), variants);
            match group_bytes(bytes, arms[i], 1) {
                Some(pattern) => propose_names(d, targets, static_names_in(pattern, names), supported),
                None => d,
            }
        },
        None => d,
    }
}

/// The verdicts of the first `n` arms, in order.
pub open spec fn arms_decisions(
    d: Decisions,
    bytes: Seq<u8>,
    arms: Seq<Seq<Option<(usize, usize)>>>,
    n: nat,
    variants: Set<Seq<char>>,
    names: Map<Seq<char>, Seq<char>>,
) -> Decisions
    decreases n,
{
    if n == 0 {
        d
    } else {
        arm_step(arms_decisions(d, bytes, arms, (n - 1) as nat, variants, names), bytes, arms, n - 1, variants, names)
    }
}

/// The verdicts of a match body on the selected name: its arms, then its equality arms.
pub open spec fn match_step(
    d: Decisions,
    body: Seq<u8>,
    variants: Set<Seq<char>>,
    names: Map<Seq<char>, Seq<char>>,
) -> Decisions {
    let arms = regex_captures(DISPATCH_ARM@, decode_utf8(body));
    let equal = known_names(
        decoded(crate::capability_scan::group_texts(body, regex_captures(EQUALITY_ARM@, decode_utf8(body)), 1)),
        names,
    );
    propose_names(arms_decisions(d, body, arms, arms.len(), variants, names), variants, equal, true)
}

/// The verdicts of every `match` on the selected name, in order.
pub open spec fn headers_decisions(
    d: Decisions,
    bytes: Seq<u8>,
    captures: Seq<Seq<Option<(usize, usize)>>>,
    variants: Set<Seq<char>>,
    names: Map<Seq<char>, Seq<char>>,
) -> Decisions
    decreases captures.len(),
{
    if captures.len() == 0 {
        d
    } else {
        let earlier = headers_decisions(d, bytes, captures.drop_last(), variants, names);
        match (group_span(captures.last(), 0), group_bytes(bytes, captures.last(), 1)) {
            (Some((start, _)), Some(subject)) => if selects(decode_utf8(subject)) {
                match delimited_after(bytes, start, 0x7b, 0x7d) {
                    Some(body) => match_step(earlier, body, variants, names),
                    None => earlier,
                }
            } else {
                earlier
            },
            _ => earlier,
        }
    }
}

/// The text before the first comma, or all of it.
pub open spec fn first_argument(contents: Seq<u8>) -> Seq<u8> {
    match first_byte_from(contents, 0, 0x2c) {
        Some(comma) => contents.subrange(0, comma),
        None => contents,
    }
}

/// The verdicts of every `matches!` on the selected name: each name it lists answers.
pub open spec fn macros_decisions(
    d: Decisions,
    bytes: Seq<u8>,
    captures: Seq<Seq<Option<(usize, usize)>>>,
    variants: Set<Seq<char>>,
    names: Map<Seq<char>, Seq<char>>,
) -> Decisions
    decreases captures.len(),
{
    if captures.len() == 0 {
        d
    } else {
        let earlier = macros_decisions(d, bytes, captures.drop_last(), variants, names);
        match group_span(captures.last(), 0) {
            Some((start, _)) => match delimited_after(bytes, start, 0x28, 0x29) {
                Some(contents) => if selects(decode_utf8(first_argument(contents))) {
                    propose_names(earlier, variants, static_names_in(contents, names), true)
                } else {
                    earlier
                },
                None => earlier,
            },
            None => earlier,
        }
    }
}

/// The verdicts of every line that tests the selected name against a
/// `StaticStrings` variant under an `if`: the names answer on the variants its guard applies to.
pub open spec fn lines_decisions(
    d: Decisions,
    lines: Seq<Seq<u8>>,
    variants: Set<Seq<char>>,
    names: Map<Seq<char>, Seq<char>>,
) -> Decisions
    decreases lines.len(),
{
    if lines.len() == 0 {
        d
    } else {
        let earlier = lines_decisions(d, lines.drop_last(), variants, names);
        let line = lines.last();
        if contains_bytes(line, utf8("StaticStrings::"@)) && contains_bytes(line, utf8("if"@)) && selects(
            decode_utf8(line),
        ) {
            propose_names(
                earlier,
                guarded_spec(Some(decode_utf8(line)), variants),
                static_names_in(line, names),
                true,
            )
        } else {
            earlier
        }
    }
}

/// Every verdict a dispatch body gives: its matches, its `matches!` tests, then its guarded lines.
pub open spec fn body_decisions(body: Seq<char>, variants: Set<Seq<char>>, names: Map<Seq<char>, Seq<char>>) -> Decisions {
    let bytes = utf8(body);
    let matched = headers_decisions(Map::empty(), bytes, regex_captures(MATCH_HEADER@, body), variants, names);
    let tested = macros_decisions(matched, bytes, regex_captures(MATCHES_MACRO@, body), variants, names);
    lines_decisions(tested, lines_of(bytes), variants, names)
}

/// The attributes each variant answers to in a dispatch body: the names whose
/// first verdict for it is supported.
pub open spec fn dispatch_attributes_spec(
    body: Seq<char>,
    variants: Set<Seq<char>>,
    names: Map<Seq<char>, Seq<char>>,
) -> Map<Seq<char>, Set<Seq<char>>> {
    let d = body_decisions(body, variants, names);
    Map::new(
        |v: Seq<char>| variants.contains(v),
        |v: Seq<char>| Set::new(|n: Seq<char>| d.contains_key((v, n)) && d[(v, n)]),
    )
}

/// The patterns the dispatch reader uses all compile.
pub open spec fn dispatch_patterns_compile() -> bool {
    &&& regex_build_error(SELECTOR@) is None
    &&& regex_build_error(MATCH_HEADER@) is None
    &&& regex_build_error(DISPATCH_ARM@) is None
    &&& regex_build_error(EQUALITY_ARM@) is None
    &&& regex_build_error(MATCHES_MACRO@) is None
    &&& regex_build_error(TYPE_PREDICATE@) is None
    &&& regex_build_error(STATIC_VARIANT@) is None
}

/// The text of a match body from `from` to `to`, or an empty text.
fn text_between_at<'a>(text: &'a str, from: usize, to: usize) -> (piece: &'a str)
    ensures
        piece.spec_bytes() == text_between(text.spec_bytes(), from as int, to as int),
{
    if from <= to && to <= text.as_bytes().len() && char_boundary_at(text, from) && char_boundary_at(text, to) {
        str_range(text, from, to)
    } else {
        let empty = "";
        proof {
            reveal_strlit("");
        }
        assert(empty.spec_bytes() =~= Seq::<u8>::empty());
        empty
    }
}

/// The verdicts of one match body.
fn match_body_decisions(
    d: &mut TextMap<TextMap<bool>>,
    body: &str,
    variants: &TextMap<()>,
    variant_keys: &Vec<String>,
    static_strings: &TextMap<String>,
) -> (result: Result<(), ExtractError>)
    requires
        decisions_wf(*old(d)),
        variants.wf(),
        static_strings.wf(),
        text_views(variant_keys@).to_set() == set_view(*variants),
        dispatch_patterns_compile(),
    ensures
        result is Ok,
        decisions_wf(*final(d)),
        decisions_view(*final(d)) == match_step(
            decisions_view(*old(d)),
            body.spec_bytes(),
            set_view(*variants),
            text_map_view(*static_strings),
        ),
{
    proof {
        vstd::utf8::encode_utf8_decode_utf8(body@);
    }
    let arms = match captures_of(DISPATCH_ARM, body) {
        Ok(arms) => arms,
        Err(error) => return Err(error),
    };
    let ghost caps = capture_views(arms@);
    let ghost bytes = body.spec_bytes();
    let ghost all = set_view(*variants);
    let ghost names = text_map_view(*static_strings);
    let ghost start = decisions_view(*d);
    let mut i: usize = 0;
    while i < arms.len()
        invariant
            decisions_wf(*d),
            variants.wf(),
            static_strings.wf(),
            all == set_view(*variants),
            names == text_map_view(*static_strings),
            text_views(variant_keys@).to_set() == all,
            dispatch_patterns_compile(),
            bytes == body.spec_bytes(),
            caps == capture_views(arms@),
            caps == regex_captures(DISPATCH_ARM@, body@),
            spans_well_placed(caps, bytes),
            i <= arms@.len(),
            decisions_view(*d) == arms_decisions(start, bytes, caps, i as nat, all, names),
        decreases arms@.len() - i,
    {
        let groups = &arms[i];
        assert(caps[i as int] == groups@);
        let end = match groups[0] {
            Some((_, end)) => end,
            None => 0,
        };
        let next_start = if i + 1 < arms.len() {
            assert(caps[i + 1] == arms@[i + 1]@);
            match arms[i + 1][0] {
                Some((next, _)) => next,
                None => body.as_bytes().len(),
            }
        } else {
            body.as_bytes().len()
        };
        assert(next_start == arm_end(bytes, caps, i as int));
        let arm_body = text_between_at(body, end, next_start);
        let supported = !contains_text(arm_body, "not_implemented(");
        let guard = group_text(body, groups, 2);
        proof {
            match guard {
                Some(g) => vstd::utf8::encode_utf8_decode_utf8(g@),
                None => {},
            }
        }
        let targets = match guarded_type_variants(guard, variants) {
            Ok(targets) => targets,
            Err(error) => return Err(error),
        };
        assert(set_view(targets) == guarded_spec(group_chars(bytes, caps[i as int], 2), all));
        if let Some(pattern) = group_text(body, groups, 1) {
            let found = match static_names_of(pattern, static_strings) {
                Ok(found) => found,
                Err(error) => return Err(error),
            };
            let target_keys = keys_of(&targets);
            proof {
                lemma_set_keys(targets);
            }
            propose_all_names(d, &target_keys, &found, supported);
        }
        i = i + 1;
    }
    let equal = match all_group_texts(EQUALITY_ARM, body, 1) {
        Ok(equal) => equal,
        Err(error) => return Err(error),
    };
    assert(decoded(text_bytes(equal@)) =~= text_views(equal@));
    let equal_names = lookup_names(&equal, static_strings);
    propose_all_names(d, variant_keys, &equal_names, true);
    Ok(())
}

/// The names a variant's decisions support.
fn supported_names(inner: &TextMap<bool>) -> (found: Vec<String>)
    requires
        inner.wf(),
    ensures
        text_views(found@).to_set() == Set::new(
            |n: Seq<char>| inner.view_map().contains_key(n) && inner.view_map()[n],
        ),
{
    let mut found: Vec<String> = Vec::new();
    let mut j: usize = 0;
    assert(text_views(found@).to_set() =~= Set::new(
        |n: Seq<char>| inner.key_seq().take(0).contains(n) && inner.view_map()[n],
    ));
    while j < inner.len()
        invariant
            inner.wf(),
            j <= inner.key_seq().len(),
            text_views(found@).to_set() == Set::new(
                |n: Seq<char>| inner.key_seq().take(j as int).contains(n) && inner.view_map()[n],
            ),
        decreases inner.key_seq().len() - j,
    {
        let (key, value) = inner.entry_at(j);
        let ghost before = text_views(found@);
        let ghost keys = inner.key_seq();
        assert(keys.take(j + 1) =~= keys.take(j as int).push(keys[j as int]));
        proof {
            lemma_push_to_set(keys.take(j as int), keys[j as int]);
            assert forall|n: Seq<char>| keys.take(j + 1).contains(n) <==> (keys.take(j as int).contains(n) || n == key@) by {
                assert(keys.take(j + 1).to_set().contains(n) == keys.take(j + 1).contains(n));
                assert(keys.take(j as int).to_set().contains(n) == keys.take(j as int).contains(n));
            }
        }
        let ghost earlier = Set::new(|n: Seq<char>| keys.take(j as int).contains(n) && inner.view_map()[n]);
        let ghost later = Set::new(|n: Seq<char>| keys.take(j + 1).contains(n) && inner.view_map()[n]);
        if *value {
            found.push(key.clone());
            assert(text_views(found@) =~= before.push(key@));
            proof {
                lemma_push_to_set(before, key@);
            }
            assert(inner.view_map()[key@]);
            assert(keys.take(j + 1)[j as int] == key@);
            assert(keys.take(j + 1).contains(key@));
            assert(later.contains(key@));
            assert(later =~= earlier.insert(key@));
        } else {
            assert(later =~= earlier);
        }
        j = j + 1;
    }
    assert(inner.key_seq().take(inner.key_seq().len() as int) =~= inner.key_seq());
    assert(Set::new(|n: Seq<char>| inner.key_seq().contains(n) && inner.view_map()[n]) =~= Set::new(
        |n: Seq<char>| inner.view_map().contains_key(n) && inner.view_map()[n],
    ));
    found
}

/// The attributes each runtime type answers to in one dispatch body.
pub fn attributes_from_dispatch(body: &str, variants: &TextMap<()>, static_strings: &TextMap<String>) -> (found:
    Result<TextMap<TextMap<()>>, ExtractError>)
    requires
        variants.wf(),
        static_strings.wf(),
    ensures
        dispatch_patterns_compile() ==> found is Ok,
        found matches Ok(map) ==> sets_wf(map) && sets_view(map) == dispatch_attributes_spec(
            body@,
            set_view(*variants),
            text_map_view(*static_strings),
        ),
        found matches Err(error) ==> error is InvalidPattern,
{
    match captures_of(SELECTOR, "") {
        Ok(_) => {},
        Err(error) => return Err(error),
    }
    let headers = match captures_of(MATCH_HEADER, body) {
        Ok(headers) => headers,
        Err(error) => return Err(error),
    };
    match captures_of(DISPATCH_ARM, "") {
        Ok(_) => {},
        Err(error) => return Err(error),
    }
    match captures_of(EQUALITY_ARM, "") {
        Ok(_) => {},
        Err(error) => return Err(error),
    }
    let macros = match captures_of(MATCHES_MACRO, body) {
        Ok(macros) => macros,
        Err(error) => return Err(error),
    };
    match captures_of(TYPE_PREDICATE, "") {
        Ok(_) => {},
        Err(error) => return Err(error),
    }
    match captures_of(STATIC_VARIANT, "") {
        Ok(_) => {},
        Err(error) => return Err(error),
    }
    let variant_keys = keys_of(variants);
    proof {
        lemma_set_keys(*variants);
    }
    let ghost all = set_view(*variants);
    let ghost names = text_map_view(*static_strings);
    let ghost bytes = utf8(body@);
    let mut decisions: TextMap<TextMap<bool>> = TextMap::new();
    assert(decisions_view(decisions) =~= Map::empty());
    let ghost header_caps = capture_views(headers@);
    let mut m: usize = 0;
    while m < headers.len()
        invariant
            decisions_wf(decisions),
            variants.wf(),
            static_strings.wf(),
            all == set_view(*variants),
            names == text_map_view(*static_strings),
            text_views(variant_keys@).to_set() == all,
            dispatch_patterns_compile(),
            bytes == utf8(body@),
            header_caps == capture_views(headers@),
            header_caps == regex_captures(MATCH_HEADER@, body@),
            spans_well_placed(header_caps, bytes),
            m <= headers@.len(),
            decisions_view(decisions) == headers_decisions(Map::empty(), bytes, header_caps.take(m as int), all, names),
        decreases headers@.len() - m,
    {
        let groups = &headers[m];
        assert(header_caps[m as int] == groups@);
        assert(header_caps.take(m + 1).drop_last() =~= header_caps.take(m as int));
        assert(header_caps.take(m + 1).last() == groups@);
        let start = match groups[0] {
            Some((start, _)) => start,
            None => 0,
        };
        if let Some(subject) = group_text(body, groups, 1) {
            proof {
                vstd::utf8::encode_utf8_decode_utf8(subject@);
            }
            let selected = match mentions_selector(subject) {
                Ok(selected) => selected,
                Err(error) => return Err(error),
            };
            if selected {
                if let Some(match_body) = delimited_after_at(body, start, 0x7b, 0x7d) {
                    match match_body_decisions(&mut decisions, match_body, variants, &variant_keys, static_strings) {
                        Ok(()) => {},
                        Err(error) => return Err(error),
                    }
                }
            }
        }
        m = m + 1;
    }
    assert(header_caps.take(headers@.len() as int) =~= header_caps);
    let ghost matched = decisions_view(decisions);
    let ghost macro_caps = capture_views(macros@);
    let mut m: usize = 0;
    while m < macros.len()
        invariant
            decisions_wf(decisions),
            variants.wf(),
            static_strings.wf(),
            all == set_view(*variants),
            names == text_map_view(*static_strings),
            text_views(variant_keys@).to_set() == all,
            dispatch_patterns_compile(),
            bytes == utf8(body@),
            macro_caps == capture_views(macros@),
            macro_caps == regex_captures(MATCHES_MACRO@, body@),
            spans_well_placed(macro_caps, bytes),
            m <= macros@.len(),
            decisions_view(decisions) == macros_decisions(matched, bytes, macro_caps.take(m as int), all, names),
        decreases macros@.len() - m,
    {
        let groups = &macros[m];
        assert(macro_caps[m as int] == groups@);
        assert(macro_caps.take(m + 1).drop_last() =~= macro_caps.take(m as int));
        assert(macro_caps.take(m + 1).last() == groups@);
        let start = match groups[0] {
            Some((start, _)) => start,
            None => 0,
        };
        if let Some(contents) = delimited_after_at(body, start, 0x28, 0x29) {
            let first = match find_byte(contents.as_bytes(), 0, 0x2c) {
                Some(comma) => {
                    proof {
                        vstd::utf8::encode_utf8_valid_utf8(contents@);
                        crate::text::lemma_ascii_is_boundary(contents.spec_bytes(), comma as int);
                        vstd::utf8::is_char_boundary_start_end_of_seq(contents.spec_bytes());
                    }
                    str_range(contents, 0, comma)
                },
                None => contents,
            };
            assert(first.spec_bytes() == first_argument(contents.spec_bytes()));
            proof {
                vstd::utf8::encode_utf8_decode_utf8(first@);
            }
            let selected = match mentions_selector(first) {
                Ok(selected) => selected,
                Err(error) => return Err(error),
            };
            if selected {
                let found = match static_names_of(contents, static_strings) {
                    Ok(found) => found,
                    Err(error) => return Err(error),
                };
                propose_all_names(&mut decisions, &variant_keys, &found, true);
            }
        }
        m = m + 1;
    }
    assert(macro_caps.take(macros@.len() as int) =~= macro_caps);
    let ghost tested = decisions_view(decisions);
    let rows = lines(body);
    let ghost all_lines = lines_of(bytes);
    let mut i: usize = 0;
    while i < rows.len()
        invariant
            decisions_wf(decisions),
            variants.wf(),
            static_strings.wf(),
            all == set_view(*variants),
            names == text_map_view(*static_strings),
            text_views(variant_keys@).to_set() == all,
            dispatch_patterns_compile(),
            bytes == utf8(body@),
            crate::text::byte_views(rows@) == all_lines,
            all_lines == lines_of(bytes),
            i <= rows@.len(),
            decisions_view(decisions) == lines_decisions(tested, all_lines.take(i as int), all, names),
        decreases rows@.len() - i,
    {
        let line = rows[i];
        assert(line.spec_bytes() == all_lines[i as int]);
        assert(all_lines.take(i + 1).drop_last() =~= all_lines.take(i as int));
        assert(all_lines.take(i + 1).last() == line.spec_bytes());
        proof {
            vstd::utf8::encode_utf8_decode_utf8(line@);
        }
        if contains_text(line, "StaticStrings::") && contains_text(line, "if") {
            let selected = match mentions_selector(line) {
                Ok(selected) => selected,
                Err(error) => return Err(error),
            };
            if selected {
                let targets = match guarded_type_variants(Some(line), variants) {
                    Ok(targets) => targets,
                    Err(error) => return Err(error),
                };
                let found = match static_names_of(line, static_strings) {
                    Ok(found) => found,
                    Err(error) => return Err(error),
                };
                let target_keys = keys_of(&targets);
                proof {
                    lemma_set_keys(targets);
                }
                propose_all_names(&mut decisions, &target_keys, &found, true);
            }
        }
        i = i + 1;
    }
    assert(all_lines.take(rows@.len() as int) =~= all_lines);
    let ghost d = decisions_view(decisions);
    assert(d == body_decisions(body@, all, names));
    let mut attributes = empty_sets();
    let mut k: usize = 0;
    while k < variant_keys.len()
        invariant
            decisions_wf(decisions),
            d == decisions_view(decisions),
            sets_wf(attributes),
            k <= variant_keys@.len(),
            sets_view(attributes) == Map::new(
                |v: Seq<char>| text_views(variant_keys@).take(k as int).contains(v),
                |v: Seq<char>| Set::new(|n: Seq<char>| d.contains_key((v, n)) && d[(v, n)]),
            ),
        decreases variant_keys@.len() - k,
    {
        let variant = &variant_keys[k];
        let chosen = match decisions.get(variant.as_str()) {
            Some(inner) => {
                assert(decisions.view_map().contains_key(variant@));
                supported_names(inner)
            },
            None => Vec::new(),
        };
        let ghost before = sets_view(attributes);
        let ghost views = text_views(variant_keys@);
        let ghost wanted = Set::new(|n: Seq<char>| d.contains_key((variant@, n)) && d[(variant@, n)]);
        assert(text_views(chosen@).to_set() =~= wanted);
        let mut set = empty_set();
        insert_texts(&mut set, chosen);
        assert(set_view(set) =~= wanted);
        let ghost made = set_view(set);
        attributes.insert(variant.clone(), set);
        assert(sets_view(attributes) =~= before.insert(variant@, made));
        assert(views.take(k + 1) =~= views.take(k as int).push(views[k as int]));
        proof {
            lemma_push_to_set(views.take(k as int), views[k as int]);
            assert forall|v: Seq<char>| views.take(k + 1).contains(v) <==> (views.take(k as int).contains(v) || v == variant@) by {
                assert(views.take(k + 1).to_set().contains(v) == views.take(k + 1).contains(v));
                assert(views.take(k as int).to_set().contains(v) == views.take(k as int).contains(v));
            }
        }
        assert(before.insert(variant@, made) =~= Map::new(
            |v: Seq<char>| views.take(k + 1).contains(v),
            |v: Seq<char>| Set::new(|n: Seq<char>| d.contains_key((v, n)) && d[(v, n)]),
        ));
        k = k + 1;
    }
    assert(text_views(variant_keys@).take(variant_keys@.len() as int) =~= text_views(variant_keys@));
    assert(sets_view(attributes) =~= dispatch_attributes_spec(body@, all, names)) by {
        assert forall|v: Seq<char>| text_views(variant_keys@).contains(v) <==> all.contains(v) by {
            assert(text_views(variant_keys@).to_set().contains(v) == text_views(variant_keys@).contains(v));
        }
    }
    Ok(attributes)
}

/// The bodies of the dispatch entry points, `py_call_attr` and `py_getattr`, in order.
pub open spec fn entry_bodies(functions: Seq<(Seq<u8>, Seq<u8>)>) -> Seq<Seq<char>>
    decreases functions.len(),
{
    if functions.len() == 0 {
        Seq::empty()
    } else {
        let earlier = entry_bodies(functions.drop_last());
        let name = decode_utf8(functions.last().0);
        if name == "py_call_attr"@ || name == "py_getattr"@ {
            earlier.push(decode_utf8(functions.last().1))
        } else {
            earlier
        }
    }
}

/// The bodies of the helpers a dispatch body delegates to that mention `StaticStrings`.
pub open spec fn helper_bodies(body: Seq<char>, index: Map<Seq<char>, Seq<Seq<char>>>) -> Set<Seq<char>> {
    Set::new(
        |h: Seq<char>|
            exists|name: Seq<char>|
                #![trigger index[name].contains(h)]
                dispatch_calls_spec(utf8(body), regex_captures(CALL@, body)).contains(name) && index.contains_key(name)
                    && index[name].contains(h) && contains_bytes(utf8(h), utf8("StaticStrings::"@)),
    )
}

/// A set of bodies holds the entry bodies and every helper body of its members.
pub open spec fn dispatch_closed(
    set: Set<Seq<char>>,
    entries: Seq<Seq<char>>,
    index: Map<Seq<char>, Seq<Seq<char>>>,
) -> bool {
    &&& forall|b: Seq<char>| #[trigger] entries.contains(b) ==> set.contains(b)
    &&& forall|b: Seq<char>, h: Seq<char>|
        #![trigger set.contains(b), helper_bodies(b, index).contains(h)]
        set.contains(b) && helper_bodies(b, index).contains(h) ==> set.contains(h)
}

/// The dispatch bodies reachable from the entry bodies through helper delegation:
/// those in every set closed under it.
pub open spec fn dispatch_reach(entries: Seq<Seq<char>>, index: Map<Seq<char>, Seq<Seq<char>>>) -> Set<Seq<char>> {
    Set::new(
        |b: Seq<char>|
            forall|set: Set<Seq<char>>| #[trigger] dispatch_closed(set, entries, index) ==> set.contains(b),
    )
}

/// The attributes each runtime type of an implementation answers to: for each
/// variant, the names some reachable dispatch body supports for it.
pub open spec fn type_dispatch_spec(
    implementation: Seq<char>,
    index: Map<Seq<char>, Seq<Seq<char>>>,
    names: Map<Seq<char>, Seq<char>>,
    variants: Set<Seq<char>>,
) -> Map<Seq<char>, Set<Seq<char>>> {
    let entries = entry_bodies(functions_of(utf8(implementation), regex_captures(FUNCTION_HEADER@, implementation)));
    let reach = dispatch_reach(entries, index);
    Map::new(
        |v: Seq<char>| variants.contains(v),
        |v: Seq<char>|
            Set::new(
                |n: Seq<char>|
                    exists|b: Seq<char>|
                        #![trigger dispatch_attributes_spec(b, variants, names)[v].contains(n)]
                        reach.contains(b) && dispatch_attributes_spec(b, variants, names)[v].contains(n),
            ),
    )
}

/// How many of the candidates are not yet visited.
pub open spec fn unvisited(candidates: Seq<Seq<char>>, visited: Set<Seq<char>>) -> nat
    decreases candidates.len(),
{
    if candidates.len() == 0 {
        0
    } else {
        unvisited(candidates.drop_last(), visited) + if visited.contains(candidates.last()) {
            0nat
        } else {
            1nat
        }
    }
}

/// Visiting a body never adds unvisited candidates, and visiting a new candidate removes one.
pub proof fn lemma_unvisited_shrinks(candidates: Seq<Seq<char>>, visited: Set<Seq<char>>, body: Seq<char>)
    ensures
        unvisited(candidates, visited.insert(body)) <= unvisited(candidates, visited),
        candidates.contains(body) && !visited.contains(body) ==> unvisited(candidates, visited.insert(body))
            < unvisited(candidates, visited),
    decreases candidates.len(),
{
    if candidates.len() > 0 {
        lemma_unvisited_shrinks(candidates.drop_last(), visited, body);
        if candidates.contains(body) && candidates.last() != body {
            let k = choose|k: int| 0 <= k < candidates.len() && candidates[k] == body;
            assert(candidates.drop_last()[k] == body);
        }
    }
}

/// Merge one body's attributes into the running ones.
fn merge_attributes(attributes: &mut TextMap<TextMap<()>>, found: &TextMap<TextMap<()>>, variant_keys: &Vec<String>)
    requires
        sets_wf(*old(attributes)),
        sets_wf(*found),
        forall|v: Seq<char>| #[trigger] sets_view(*found).contains_key(v) <==> text_views(variant_keys@).contains(v),
        forall|v: Seq<char>| #[trigger] sets_view(*old(attributes)).contains_key(v) <==> text_views(variant_keys@).contains(v),
    ensures
        sets_wf(*final(attributes)),
        forall|v: Seq<char>| #[trigger] sets_view(*final(attributes)).contains_key(v) <==> text_views(variant_keys@).contains(v),
        forall|v: Seq<char>|
            #[trigger] sets_view(*final(attributes)).contains_key(v) ==> sets_view(*final(attributes))[v]
                == sets_view(*old(attributes))[v] + sets_view(*found)[v],
{
    let ghost start = sets_view(*attributes);
    let ghost views = text_views(variant_keys@);
    let mut k: usize = 0;
    while k < variant_keys.len()
        invariant
            sets_wf(*attributes),
            sets_wf(*found),
            views == text_views(variant_keys@),
            k <= variant_keys@.len(),
            forall|v: Seq<char>| #[trigger] sets_view(*found).contains_key(v) <==> views.contains(v),
            forall|v: Seq<char>| #[trigger] start.contains_key(v) <==> views.contains(v),
            forall|v: Seq<char>| #[trigger] sets_view(*attributes).contains_key(v) <==> views.contains(v),
            forall|v: Seq<char>|
                #[trigger] sets_view(*attributes).contains_key(v) ==> sets_view(*attributes)[v] == if views.take(
                    k as int,
                ).contains(v) {
                    start[v] + sets_view(*found)[v]
                } else {
                    start[v]
                },
        decreases variant_keys@.len() - k,
    {
        let variant = &variant_keys[k];
        assert(views[k as int] == variant@);
        assert(views.contains(variant@));
        assert(sets_view(*found).contains_key(variant@));
        let ghost before = sets_view(*attributes);
        match found.get(variant.as_str()) {
            Some(names) => {
                assert(found.view_map().contains_key(variant@));
                let items = keys_of(names);
                proof {
                    lemma_set_keys(*names);
                }
                extend_set_at(attributes, variant.clone(), items);
            },
            None => {},
        }
        proof {
            assert(views.take(k + 1) =~= views.take(k as int).push(views[k as int]));
            assert forall|v: Seq<char>| views.take(k + 1).contains(v) <==> (views.take(k as int).contains(v) || v == variant@) by {
                lemma_push_to_set(views.take(k as int), views[k as int]);
                assert(views.take(k + 1).to_set().contains(v) == views.take(k + 1).contains(v));
                assert(views.take(k as int).to_set().contains(v) == views.take(k as int).contains(v));
            }
            if views.take(k as int).contains(variant@) {
                let j = choose|j: int| 0 <= j < k && views.take(k as int)[j] == variant@;
                assert(views[j] == views[k as int]);
            }
        }
        k = k + 1;
    }
    assert(views.take(variant_keys@.len() as int) =~= views);
}

/// The patterns the type dispatch reader uses all compile.
pub open spec fn type_dispatch_patterns_compile() -> bool {
    &&& dispatch_patterns_compile()
    &&& regex_build_error(CALL@) is None
    &&& regex_build_error(FUNCTION_HEADER@) is None
}

/// The entry bodies of an implementation, in order.
fn dispatch_entry_bodies(implementation: &str) -> (found: Result<Vec<String>, ExtractError>)
    ensures
        regex_build_error(FUNCTION_HEADER@) is None ==> found is Ok,
        found matches Ok(bodies) ==> text_views(bodies@) == entry_bodies(
            functions_of(utf8(implementation@), regex_captures(FUNCTION_HEADER@, implementation@)),
        ),
        found matches Err(error) ==> error is InvalidPattern,
{
    let functions = match rust_function_bodies(implementation) {
        Ok(functions) => functions,
        Err(error) => return Err(error),
    };
    let ghost all = functions@.map_values(|pair: (String, String)| crate::scanner::pair_bytes(pair));
    let mut bodies: Vec<String> = Vec::new();
    let mut i: usize = 0;
    while i < functions.len()
        invariant
            i <= functions@.len(),
            all == functions@.map_values(|pair: (String, String)| crate::scanner::pair_bytes(pair)),
            text_views(bodies@) == entry_bodies(all.take(i as int)),
        decreases functions@.len() - i,
    {
        assert(all.take(i + 1).drop_last() =~= all.take(i as int));
        assert(all.take(i + 1).last() == crate::scanner::pair_bytes(functions@[i as int]));
        let name = functions[i].0.as_str();
        if str_eq(name, "py_call_attr") || str_eq(name, "py_getattr") {
            let ghost before = text_views(bodies@);
            bodies.push(functions[i].1.clone());
            assert(text_views(bodies@) =~= before.push(functions@[i as int].1@));
        }
        i = i + 1;
    }
    assert(all.take(functions@.len() as int) =~= all);
    Ok(bodies)
}

/// Every body of the index that mentions `StaticStrings`, after the given ones.
fn dispatch_candidates(entries: &Vec<String>, function_index: &TextMap<Vec<String>>) -> (candidates: Vec<String>)
    requires
        function_index.wf(),
    ensures
        forall|b: Seq<char>| text_views(entries@).contains(b) ==> #[trigger] text_views(candidates@).contains(b),
        forall|name: Seq<char>, h: Seq<char>|
            #![trigger list_map_view(*function_index)[name].contains(h)]
            list_map_view(*function_index).contains_key(name) && list_map_view(*function_index)[name].contains(h)
                && contains_bytes(utf8(h), utf8("StaticStrings::"@)) ==> text_views(candidates@).contains(h),
{
    let mut candidates: Vec<String> = Vec::new();
    let mut i: usize = 0;
    while i < entries.len()
        invariant
            i <= entries@.len(),
            text_views(candidates@) == text_views(entries@).take(i as int),
        decreases entries@.len() - i,
    {
        let ghost before = text_views(candidates@);
        let entry = entries[i].clone();
        candidates.push(entry);
        assert(text_views(candidates@) =~= before.push(entry@));
        assert(text_views(entries@).take(i + 1) =~= text_views(entries@).take(i as int).push(entries@[i as int]@));
        assert(text_views(candidates@) =~= text_views(entries@).take(i + 1));
        i = i + 1;
    }
    assert(text_views(entries@).take(entries@.len() as int) =~= text_views(entries@));
    let ghost listed = text_views(entries@);
    let ghost index = list_map_view(*function_index);
    let mut k: usize = 0;
    while k < function_index.len()
        invariant
            function_index.wf(),
            index == list_map_view(*function_index),
            k <= function_index.key_seq().len(),
            forall|b: Seq<char>| listed.contains(b) ==> #[trigger] text_views(candidates@).contains(b),
            forall|name: Seq<char>, h: Seq<char>|
                #![trigger index[name].contains(h)]
                function_index.key_seq().take(k as int).contains(name) && index.contains_key(name) && index[name].contains(h)
                    && contains_bytes(utf8(h), utf8("StaticStrings::"@)) ==> text_views(candidates@).contains(h),
        decreases function_index.key_seq().len() - k,
    {
        let (name, bodies) = function_index.entry_at(k);
        let ghost keys = function_index.key_seq();
        let ghost before = text_views(candidates@);
        assert(index[name@] == text_views(bodies@));
        let mut j: usize = 0;
        while j < bodies.len()
            invariant
                j <= bodies@.len(),
                forall|b: Seq<char>| before.contains(b) ==> #[trigger] text_views(candidates@).contains(b),
                forall|h: Seq<char>|
                    #[trigger] text_views(bodies@).take(j as int).contains(h) && contains_bytes(utf8(h), utf8("StaticStrings::"@))
                        ==> text_views(candidates@).contains(h),
            decreases bodies@.len() - j,
        {
            let body = bodies[j].as_str();
            let ghost step = text_views(candidates@);
            let ghost done = text_views(bodies@).take(j as int);
            let ghost upto = text_views(bodies@).take(j + 1);
            assert(text_views(bodies@)[j as int] == body@);
            assert(upto =~= done.push(body@));
            let wanted = contains_text(body, "StaticStrings::");
            if wanted {
                candidates.push(bodies[j].clone());
                assert(text_views(candidates@) =~= step.push(body@));
                assert(text_views(candidates@)[step.len() as int] == body@);
            }
            proof {
                assert forall|b: Seq<char>| step.contains(b) implies #[trigger] text_views(candidates@).contains(b) by {
                    let w = choose|w: int| 0 <= w < step.len() && step[w] == b;
                    assert(text_views(candidates@)[w] == b);
                }
                assert forall|h: Seq<char>|
                    #[trigger] upto.contains(h) && contains_bytes(utf8(h), utf8("StaticStrings::"@))
                        implies text_views(candidates@).contains(h) by {
                    let w = choose|w: int| 0 <= w < upto.len() && upto[w] == h;
                    if w < j {
                        assert(done[w] == h);
                        assert(done.contains(h));
                        assert(step.contains(h));
                    } else {
                        assert(h == body@);
                    }
                }
            }
            j = j + 1;
        }
        assert(text_views(bodies@).take(bodies@.len() as int) =~= text_views(bodies@));
        proof {
            assert(keys.take(k + 1) =~= keys.take(k as int).push(keys[k as int]));
            assert forall|n: Seq<char>, h: Seq<char>|
                #![trigger index[n].contains(h)]
                keys.take(k + 1).contains(n) && index.contains_key(n) && index[n].contains(h)
                    && contains_bytes(utf8(h), utf8("StaticStrings::"@)) implies text_views(candidates@).contains(h) by {
                let tk = keys.take(k + 1);
                    let w = choose|w: int| 0 <= w < tk.len() && tk[w] == n;
                if w < k {
                    assert(keys.take(k as int)[w] == n);
                    assert(before.contains(h));
                } else {
                    assert(n == name@);
                    assert(text_views(bodies@).contains(h));
                }
            }
        }
        k = k + 1;
    }
    proof {
        assert(function_index.key_seq().take(function_index.key_seq().len() as int) =~= function_index.key_seq());
    }
    candidates
}

/// The helper bodies a dispatch body delegates to, unless already visited.
fn push_helpers(
    pending: &mut Vec<String>,
    calls: &TextMap<()>,
    function_index: &TextMap<Vec<String>>,
    visited: &TextMap<()>,
)
    requires
        calls.wf(),
        function_index.wf(),
        visited.wf(),
    ensures
        text_views(old(pending)@).to_set().subset_of(text_views(final(pending)@).to_set()),
        forall|name: Seq<char>, h: Seq<char>|
            #![trigger list_map_view(*function_index)[name].contains(h)]
            set_view(*calls).contains(name) && list_map_view(*function_index).contains_key(name)
                && list_map_view(*function_index)[name].contains(h) && contains_bytes(utf8(h), utf8("StaticStrings::"@))
                ==> set_view(*visited).contains(h) || text_views(final(pending)@).contains(h),
        forall|h: Seq<char>|
            #[trigger] text_views(final(pending)@).contains(h) ==> text_views(old(pending)@).contains(h) || (
            exists|name: Seq<char>|
                #![trigger list_map_view(*function_index)[name].contains(h)]
                set_view(*calls).contains(name) && list_map_view(*function_index).contains_key(name)
                    && list_map_view(*function_index)[name].contains(h) && contains_bytes(utf8(h), utf8("StaticStrings::"@))),
{
    let ghost start = text_views(pending@);
    let ghost index = list_map_view(*function_index);
    let names = keys_of(calls);
    proof {
        lemma_set_keys(*calls);
    }
    let ghost called = text_views(names@);
    let mut i: usize = 0;
    while i < names.len()
        invariant
            function_index.wf(),
            visited.wf(),
            index == list_map_view(*function_index),
            called == text_views(names@),
            called.to_set() == set_view(*calls),
            i <= names@.len(),
            forall|b: Seq<char>| #[trigger] start.contains(b) ==> text_views(pending@).contains(b),
            forall|name: Seq<char>, h: Seq<char>|
                #![trigger index[name].contains(h)]
                called.take(i as int).contains(name) && index.contains_key(name) && index[name].contains(h)
                    && contains_bytes(utf8(h), utf8("StaticStrings::"@)) ==> set_view(*visited).contains(h)
                    || text_views(pending@).contains(h),
            forall|h: Seq<char>|
                #[trigger] text_views(pending@).contains(h) ==> start.contains(h) || (exists|name: Seq<char>|
                    #![trigger index[name].contains(h)]
                    set_view(*calls).contains(name) && index.contains_key(name) && index[name].contains(h)
                        && contains_bytes(utf8(h), utf8("StaticStrings::"@))),
        decreases names@.len() - i,
    {
        let name = names[i].as_str();
        assert(called[i as int] == name@);
        assert(called.to_set().contains(name@));
        let ghost before = text_views(pending@);
        if let Some(bodies) = function_index.get(name) {
            assert(index.contains_key(name@));
            assert(index[name@] == text_views(bodies@));
            let mut j: usize = 0;
            while j < bodies.len()
                invariant
                    visited.wf(),
                    index[name@] == text_views(bodies@),
                    index.contains_key(name@),
                    set_view(*calls).contains(name@),
                    j <= bodies@.len(),
                    forall|b: Seq<char>| #[trigger] before.contains(b) ==> text_views(pending@).contains(b),
                    forall|h: Seq<char>|
                        #[trigger] text_views(bodies@).take(j as int).contains(h) && contains_bytes(utf8(h), utf8("StaticStrings::"@))
                            ==> set_view(*visited).contains(h) || text_views(pending@).contains(h),
                    forall|h: Seq<char>|
                        #[trigger] text_views(pending@).contains(h) ==> before.contains(h) || (index[name@].contains(h)
                            && contains_bytes(utf8(h), utf8("StaticStrings::"@))),
                decreases bodies@.len() - j,
            {
                let body = bodies[j].as_str();
                let ghost step = text_views(pending@);
                let ghost done = text_views(bodies@).take(j as int);
                let ghost upto = text_views(bodies@).take(j + 1);
                assert(text_views(bodies@)[j as int] == body@);
                assert(upto =~= done.push(body@));
                let seen = visited.get(body).is_some();
                assert(seen == set_view(*visited).contains(body@));
                let wanted = contains_text(body, "StaticStrings::");
                assert(index[name@].contains(body@));
                if !seen && wanted {
                    pending.push(bodies[j].clone());
                    assert(text_views(pending@) =~= step.push(body@));
                    assert(text_views(pending@)[step.len() as int] == body@);
                }
                proof {
                    assert forall|b: Seq<char>| step.contains(b) implies #[trigger] text_views(pending@).contains(b) by {
                        let w = choose|w: int| 0 <= w < step.len() && step[w] == b;
                        assert(text_views(pending@)[w] == b);
                    }
                    assert forall|b: Seq<char>| #[trigger] before.contains(b) implies text_views(pending@).contains(b) by {
                        assert(step.contains(b));
                    }
                    assert forall|h: Seq<char>|
                        #[trigger] upto.contains(h) && contains_bytes(utf8(h), utf8("StaticStrings::"@))
                            implies set_view(*visited).contains(h) || text_views(pending@).contains(h) by {
                        let w = choose|w: int| 0 <= w < upto.len() && upto[w] == h;
                        if w < j {
                            assert(done[w] == h);
                            assert(done.contains(h));
                            if step.contains(h) {
                                assert(text_views(pending@).contains(h));
                            }
                        } else {
                            assert(h == body@);
                        }
                    }
                    assert forall|h: Seq<char>|
                        #[trigger] text_views(pending@).contains(h) implies before.contains(h) || (index[name@].contains(h)
                            && contains_bytes(utf8(h), utf8("StaticStrings::"@))) by {
                        let w = choose|w: int| 0 <= w < text_views(pending@).len() && text_views(pending@)[w] == h;
                        if w < step.len() {
                            assert(step[w] == h);
                            assert(step.contains(h));
                        } else {
                            assert(h == body@);
                        }
                    }
                }
                j = j + 1;
            }
            assert(text_views(bodies@).take(bodies@.len() as int) =~= text_views(bodies@));
        }
        proof {
            assert(called.take(i + 1) =~= called.take(i as int).push(called[i as int]));
            assert forall|n: Seq<char>, h: Seq<char>|
                #![trigger index[n].contains(h)]
                called.take(i + 1).contains(n) && index.contains_key(n) && index[n].contains(h)
                    && contains_bytes(utf8(h), utf8("StaticStrings::"@)) implies set_view(*visited).contains(h)
                    || text_views(pending@).contains(h) by {
                let tk = called.take(i + 1);
                    let w = choose|w: int| 0 <= w < tk.len() && tk[w] == n;
                if w < i {
                    assert(called.take(i as int)[w] == n);
                    if before.contains(h) {
                        let x = choose|x: int| 0 <= x < before.len() && before[x] == h;
                        assert(before.contains(h));
                    }
                } else {
                    assert(n == name@);
                }
            }
            assert forall|h: Seq<char>| #[trigger] text_views(pending@).contains(h) implies start.contains(h) || (exists|n: Seq<char>|
                #![trigger index[n].contains(h)]
                set_view(*calls).contains(n) && index.contains_key(n) && index[n].contains(h)
                    && contains_bytes(utf8(h), utf8("StaticStrings::"@))) by {
                if !before.contains(h) {
                    assert(index[name@].contains(h));
                }
            }
        }
        i = i + 1;
    }
    assert(called.take(names@.len() as int) =~= called);
    assert(text_views(old(pending)@).to_set().subset_of(text_views(pending@).to_set()));
    assert forall|name: Seq<char>, h: Seq<char>|
        #![trigger index[name].contains(h)]
        set_view(*calls).contains(name) && index.contains_key(name) && index[name].contains(h)
            && contains_bytes(utf8(h), utf8("StaticStrings::"@)) implies set_view(*visited).contains(h)
            || text_views(pending@).contains(h) by {
        assert(called.to_set().contains(name));
        assert(called.contains(name));
    }
}

/// The attributes each runtime type of a `PyTrait` implementation answers to:
/// those its dispatch entry points support, directly or through the helpers
/// they delegate the selected name to, each helper body read once.
pub fn type_dispatch_attributes(
    implementation: &str,
    function_index: &TextMap<Vec<String>>,
    static_strings: &TextMap<String>,
    variants: &TextMap<()>,
) -> (found: Result<TextMap<TextMap<()>>, ExtractError>)
    requires
        function_index.wf(),
        static_strings.wf(),
        variants.wf(),
    ensures
        type_dispatch_patterns_compile() ==> found is Ok,
        found matches Ok(map) ==> sets_wf(map) && sets_view(map) == type_dispatch_spec(
            implementation@,
            list_map_view(*function_index),
            text_map_view(*static_strings),
            set_view(*variants),
        ),
        found matches Err(error) ==> error is InvalidPattern,
{
    let mut pending = match dispatch_entry_bodies(implementation) {
        Ok(bodies) => bodies,
        Err(error) => return Err(error),
    };
    let ghost entries = text_views(pending@);
    let ghost index = list_map_view(*function_index);
    let ghost names = text_map_view(*static_strings);
    let ghost all = set_view(*variants);
    let ghost reach = dispatch_reach(entries, index);
    let candidates = dispatch_candidates(&pending, function_index);
    let ghost cands = text_views(candidates@);
    let variant_keys = keys_of(variants);
    proof {
        lemma_set_keys(*variants);
    }
    let ghost views = text_views(variant_keys@);
    let mut visited = empty_set();
    let mut attributes = empty_sets();
    let mut k: usize = 0;
    while k < variant_keys.len()
        invariant
            sets_wf(attributes),
            views == text_views(variant_keys@),
            k <= variant_keys@.len(),
            sets_view(attributes) == Map::new(
                |v: Seq<char>| views.take(k as int).contains(v),
                |v: Seq<char>| Set::<Seq<char>>::empty(),
            ),
        decreases variant_keys@.len() - k,
    {
        let ghost before = sets_view(attributes);
        let none: Vec<String> = Vec::new();
        assert(text_views(none@).to_set() =~= Set::<Seq<char>>::empty());
        let key = variant_keys[k].clone();
        assert(key@ == views[k as int]);
        assert(set_at(before, key@) + text_views(none@).to_set() =~= Set::<Seq<char>>::empty());
        extend_set_at(&mut attributes, key, none);
        proof {
            assert(views.take(k + 1) =~= views.take(k as int).push(views[k as int]));
            assert forall|v: Seq<char>| views.take(k + 1).contains(v) <==> (views.take(k as int).contains(v) || v == views[k as int]) by {
                lemma_push_to_set(views.take(k as int), views[k as int]);
                assert(views.take(k + 1).to_set().contains(v) == views.take(k + 1).contains(v));
                assert(views.take(k as int).to_set().contains(v) == views.take(k as int).contains(v));
            }
        }
        assert(sets_view(attributes) =~= Map::new(
            |v: Seq<char>| views.take(k + 1).contains(v),
            |v: Seq<char>| Set::<Seq<char>>::empty(),
        ));
        k = k + 1;
    }
    assert(views.take(variant_keys@.len() as int) =~= views);
    assert forall|v: Seq<char>| #[trigger] sets_view(attributes).contains_key(v) implies sets_view(attributes)[v]
        =~= Set::new(
        |n: Seq<char>|
            exists|b: Seq<char>|
                #![trigger dispatch_attributes_spec(b, all, names)[v].contains(n)]
                set_view(visited).contains(b) && dispatch_attributes_spec(b, all, names)[v].contains(n),
    ) by {}
    while pending.len() > 0
        invariant
            sets_wf(attributes),
            visited.wf(),
            variants.wf(),
            static_strings.wf(),
            function_index.wf(),
            index == list_map_view(*function_index),
            names == text_map_view(*static_strings),
            all == set_view(*variants),
            views == text_views(variant_keys@),
            views.to_set() == all,
            cands == text_views(candidates@),
            reach == dispatch_reach(entries, index),
            forall|b: Seq<char>| entries.contains(b) ==> #[trigger] cands.contains(b),
            forall|name: Seq<char>, h: Seq<char>|
                #![trigger index[name].contains(h)]
                index.contains_key(name) && index[name].contains(h) && contains_bytes(utf8(h), utf8("StaticStrings::"@))
                    ==> cands.contains(h),
            forall|v: Seq<char>| #[trigger] sets_view(attributes).contains_key(v) <==> views.contains(v),
            forall|v: Seq<char>|
                #[trigger] sets_view(attributes).contains_key(v) ==> sets_view(attributes)[v] == Set::new(
                    |n: Seq<char>|
                        exists|b: Seq<char>|
                            #![trigger dispatch_attributes_spec(b, all, names)[v].contains(n)]
                            set_view(visited).contains(b) && dispatch_attributes_spec(b, all, names)[v].contains(n),
                ),
            forall|b: Seq<char>| #[trigger] set_view(visited).contains(b) ==> reach.contains(b),
            forall|b: Seq<char>| #[trigger] text_views(pending@).contains(b) ==> reach.contains(b) && cands.contains(b),
            forall|b: Seq<char>|
                #[trigger] entries.contains(b) ==> set_view(visited).contains(b) || text_views(pending@).contains(b),
            forall|b: Seq<char>, h: Seq<char>|
                #![trigger set_view(visited).contains(b), helper_bodies(b, index).contains(h)]
                set_view(visited).contains(b) && helper_bodies(b, index).contains(h) ==> set_view(visited).contains(h)
                    || text_views(pending@).contains(h),
        decreases unvisited(cands, set_view(visited)), pending@.len(),
    {
        let ghost queued = text_views(pending@);
        let ghost seen = set_view(visited);
        let body = match pending.pop() {
            Some(body) => body,
            None => return Err(ExtractError::InvalidPattern { pattern: String::new(), message: String::new() }),
        };
        let ghost rest = text_views(pending@);
        assert(queued[queued.len() - 1] == body@);
        assert(queued.contains(body@));
        assert forall|b: Seq<char>| queued.contains(b) implies rest.contains(b) || b == body@ by {
            let w = choose|w: int| 0 <= w < queued.len() && queued[w] == b;
            if w < queued.len() - 1 {
                assert(rest[w] == b);
            }
        }
        assert forall|b: Seq<char>| rest.contains(b) implies queued.contains(b) by {
            let w = choose|w: int| 0 <= w < rest.len() && rest[w] == b;
            assert(queued[w] == b);
        }
        if visited.get(body.as_str()).is_some() {
            assert(seen.contains(body@));
            continue;
        }
        assert(!seen.contains(body@));
        proof {
            lemma_unvisited_shrinks(cands, seen, body@);
        }
        set_insert(&mut visited, body.clone());
        let found = match attributes_from_dispatch(body.as_str(), variants, static_strings) {
            Ok(found) => found,
            Err(error) => return Err(error),
        };
        let ghost before_attributes = sets_view(attributes);
        assert forall|v: Seq<char>| #[trigger] sets_view(found).contains_key(v) <==> views.contains(v) by {
            assert(views.to_set().contains(v) == views.contains(v));
        }
        merge_attributes(&mut attributes, &found, &variant_keys);
        let calls = match delegated_dispatch_calls(body.as_str()) {
            Ok(calls) => calls,
            Err(error) => return Err(error),
        };
        let ghost delegated = dispatch_calls_spec(utf8(body@), regex_captures(CALL@, body@));
        push_helpers(&mut pending, &calls, function_index, &visited);
        proof {
            let now = set_view(visited);
            let after = text_views(pending@);
            assert(now == seen.insert(body@));
            assert(reach.contains(body@));
            assert forall|h: Seq<char>| #[trigger] after.contains(h) implies reach.contains(h) && cands.contains(h) by {
                if !rest.contains(h) {
                    let name = choose|name: Seq<char>|
                        #![trigger index[name].contains(h)]
                        set_view(calls).contains(name) && index.contains_key(name) && index[name].contains(h)
                            && contains_bytes(utf8(h), utf8("StaticStrings::"@));
                    assert(delegated.to_set().contains(name));
                    assert(delegated.contains(name));
                    assert(helper_bodies(body@, index).contains(h));
                    assert forall|set: Set<Seq<char>>| #[trigger] dispatch_closed(set, entries, index) implies set.contains(h) by {
                        assert(set.contains(body@));
                    }
                } else {
                    assert(queued.contains(h));
                }
            }
            assert forall|b: Seq<char>| #[trigger] now.contains(b) implies reach.contains(b) by {
                if b != body@ {
                    assert(seen.contains(b));
                }
            }
            assert forall|b: Seq<char>| #[trigger] entries.contains(b) implies now.contains(b) || after.contains(b) by {
                if !seen.contains(b) {
                    assert(queued.contains(b));
                    if b != body@ {
                        assert(rest.contains(b));
                        assert(text_views(pending@).to_set().contains(b) == after.contains(b));
                        assert(rest.to_set().contains(b));
                    }
                }
            }
            assert forall|b: Seq<char>, h: Seq<char>|
                #![trigger now.contains(b), helper_bodies(b, index).contains(h)]
                now.contains(b) && helper_bodies(b, index).contains(h) implies now.contains(h) || after.contains(h) by {
                if b == body@ {
                    let name = choose|name: Seq<char>|
                        #![trigger index[name].contains(h)]
                        delegated.contains(name) && index.contains_key(name) && index[name].contains(h)
                            && contains_bytes(utf8(h), utf8("StaticStrings::"@));
                    assert(delegated.to_set().contains(name));
                } else {
                    assert(seen.contains(b));
                    if !seen.contains(h) {
                        assert(queued.contains(h));
                        if h != body@ {
                            assert(rest.contains(h));
                            assert(rest.to_set().contains(h));
                        }
                    }
                }
            }
            assert forall|v: Seq<char>| #[trigger] sets_view(attributes).contains_key(v) implies sets_view(attributes)[v]
                == Set::new(
                |n: Seq<char>|
                    exists|b: Seq<char>|
                        #![trigger dispatch_attributes_spec(b, all, names)[v].contains(n)]
                        now.contains(b) && dispatch_attributes_spec(b, all, names)[v].contains(n),
            ) by {
                assert(before_attributes.contains_key(v));
                let earlier = Set::new(
                    |n: Seq<char>|
                        exists|b: Seq<char>|
                            #![trigger dispatch_attributes_spec(b, all, names)[v].contains(n)]
                            seen.contains(b) && dispatch_attributes_spec(b, all, names)[v].contains(n),
                );
                let later = Set::new(
                    |n: Seq<char>|
                        exists|b: Seq<char>|
                            #![trigger dispatch_attributes_spec(b, all, names)[v].contains(n)]
                            now.contains(b) && dispatch_attributes_spec(b, all, names)[v].contains(n),
                );
                assert(before_attributes[v] == earlier);
                assert(sets_view(found)[v] == dispatch_attributes_spec(body@, all, names)[v]);
                assert forall|n: Seq<char>| later.contains(n) <==> (earlier.contains(n) || sets_view(found)[v].contains(n)) by {
                    if later.contains(n) {
                        let b = choose|b: Seq<char>|
                            #![trigger dispatch_attributes_spec(b, all, names)[v].contains(n)]
                            now.contains(b) && dispatch_attributes_spec(b, all, names)[v].contains(n);
                        if b != body@ {
                            assert(seen.contains(b));
                        }
                    }
                    if sets_view(found)[v].contains(n) {
                        assert(now.contains(body@));
                        assert(dispatch_attributes_spec(body@, all, names)[v].contains(n));
                    }
                }
                assert(sets_view(attributes)[v] =~= later);
            }
        }
    }
    proof {
        let done = set_view(visited);
        assert(text_views(pending@).len() == 0);
        assert(dispatch_closed(done, entries, index));
        assert(done =~= reach) by {
            assert forall|b: Seq<char>| reach.contains(b) implies done.contains(b) by {
                assert(dispatch_closed(done, entries, index));
            }
        }
    }
    assert(sets_view(attributes) =~= type_dispatch_spec(
        implementation@,
        list_map_view(*function_index),
        text_map_view(*static_strings),
        set_view(*variants),
    )) by {
        assert forall|v: Seq<char>| views.contains(v) <==> all.contains(v) by {
            assert(views.to_set().contains(v) == views.contains(v));
        }
    }
    Ok(attributes)
}

proof fn lemma_propose_names_elsewhere(
    d: Decisions,
    targets: Set<Seq<char>>,
    names: Seq<Seq<char>>,
    supported: bool,
    v: Seq<char>,
    name: Seq<char>,
)
    requires
        !targets.contains(v),
    ensures
        propose_names(d, targets, names, supported).contains_key((v, name)) == d.contains_key((v, name)),
        d.contains_key((v, name)) ==> propose_names(d, targets, names, supported)[(v, name)] == d[(v, name)],
    decreases names.len(),
{
    if names.len() > 0 {
        lemma_propose_names_elsewhere(d, targets, names.drop_last(), supported, v, name);
    }
}

/// A dispatch arm whose guard has type predicates that select some variants
/// gives its names to those variants only: a variant the guard leaves out
/// gets no verdict from the arm, and keeps every verdict it had.
pub proof fn lemma_guard_excludes_variants(
    d: Decisions,
    bytes: Seq<u8>,
    arms: Seq<Seq<Option<(usize, usize)>>>,
    i: int,
    variants: Set<Seq<char>>,
    names: Map<Seq<char>, Seq<char>>,
    guard: Seq<char>,
    v: Seq<char>,
    name: Seq<char>,
)
    requires
        0 <= i < arms.len(),
        group_chars(bytes, arms[i], 2) == Some(guard),
        regex_captures(TYPE_PREDICATE@, guard).len() > 0,
        guard_selection(utf8(guard), regex_captures(TYPE_PREDICATE@, guard), variants) != Set::<Seq<char>>::empty(),
        !guard_selection(utf8(guard), regex_captures(TYPE_PREDICATE@, guard), variants).contains(v),
    ensures
        arm_step(d, bytes, arms, i, variants, names).contains_key((v, name)) == d.contains_key((v, name)),
        d.contains_key((v, name)) ==> arm_step(d, bytes, arms, i, variants, names)[(v, name)] == d[(v, name)],
{
    let targets = guarded_spec(group_chars(bytes, arms[i], 2), variants);
    assert(!targets.contains(v));
    match group_span(arms[i], 0) {
        Some((_, end)) => {
            let supported = !contains_bytes(
                text_between(bytes, end, arm_end(bytes, arms, i)),
                utf8("not_implemented("@),
            );
            match group_bytes(bytes, arms[i], 1) {
                Some(pattern) => {
                    lemma_propose_names_elsewhere(d, targets, static_names_in(pattern, names), supported, v, name);
                },
                None => {},
            }
        },
        None => {},
    }
}

proof fn lemma_propose_names_reaches(
    d: Decisions,
    targets: Set<Seq<char>>,
    names: Seq<Seq<char>>,
    supported: bool,
    v: Seq<char>,
    name: Seq<char>,
)
    requires
        targets.contains(v),
        names.contains(name),
    ensures
        propose_names(d, targets, names, supported).contains_key((v, name)),
    decreases names.len(),
{
    if names.last() != name {
        let k = choose|k: int| 0 <= k < names.len() && names[k] == name;
        assert(names.drop_last()[k] == name);
        lemma_propose_names_reaches(d, targets, names.drop_last(), supported, v, name);
    }
}

/// A dispatch arm whose guard selects some variants gives every name its
/// pattern lists to each selected variant: after the arm, each of them has a
/// verdict for each of those names.
pub proof fn lemma_guard_reaches_selected_variants(
    d: Decisions,
    bytes: Seq<u8>,
    arms: Seq<Seq<Option<(usize, usize)>>>,
    i: int,
    variants: Set<Seq<char>>,
    names: Map<Seq<char>, Seq<char>>,
    guard: Seq<char>,
    pattern: Seq<u8>,
    v: Seq<char>,
    name: Seq<char>,
)
    requires
        0 <= i < arms.len(),
        group_span(arms[i], 0) is Some,
        group_bytes(bytes, arms[i], 1) == Some(pattern),
        static_names_in(pattern, names).contains(name),
        group_chars(bytes, arms[i], 2) == Some(guard),
        regex_captures(TYPE_PREDICATE@, guard).len() > 0,
        guard_selection(utf8(guard), regex_captures(TYPE_PREDICATE@, guard), variants).contains(v),
    ensures
        arm_step(d, bytes, arms, i, variants, names).contains_key((v, name)),
{
    let targets = guarded_spec(group_chars(bytes, arms[i], 2), variants);
    assert(targets.contains(v));
    let (_, end) = group_span(arms[i], 0)->0;
    let supported = !contains_bytes(text_between(bytes, end, arm_end(bytes, arms, i)), utf8("not_implemented("@));
    lemma_propose_names_reaches(d, targets, static_names_in(pattern, names), supported, v, name);
}

/// A dispatch arm without a guard gives every name its pattern lists to
/// every variant.
pub proof fn lemma_unguarded_arm_reaches_all(
    d: Decisions,
    bytes: Seq<u8>,
    arms: Seq<Seq<Option<(usize, usize)>>>,
    i: int,
    variants: Set<Seq<char>>,
    names: Map<Seq<char>, Seq<char>>,
    pattern: Seq<u8>,
    v: Seq<char>,
    name: Seq<char>,
)
    requires
        0 <= i < arms.len(),
        group_span(arms[i], 0) is Some,
        group_bytes(bytes, arms[i], 1) == Some(pattern),
        static_names_in(pattern, names).contains(name),
        group_chars(bytes, arms[i], 2) is None,
        variants.contains(v),
    ensures
        arm_step(d, bytes, arms, i, variants, names).contains_key((v, name)),
{
    let targets = guarded_spec(group_chars(bytes, arms[i], 2), variants);
    assert(targets.contains(v));
    let (_, end) = group_span(arms[i], 0)->0;
    let supported = !contains_bytes(text_between(bytes, end, arm_end(bytes, arms, i)), utf8("not_implemented("@));
    lemma_propose_names_reaches(d, targets, static_names_in(pattern, names), supported, v, name);
}

} // verus!
