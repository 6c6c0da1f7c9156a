//! The static capability graph of a Monty release, read from its Rust sources:
//! builtin functions and types, exceptions, modules with their attributes, and
//! the attributes each runtime type dispatches.

use vstd::prelude::*;
use vstd::string::StringSliceAdditionalSpecFns;
use vstd::utf8::*;

use crate::extract::ExtractError;
use crate::ordered::TextMap;
use crate::scanner::{
    capture_views, captures_of, delimited_at, delimited_spec, enum_variants_spec, group_bytes,
    group_span, group_text, parse_enum_variants, regex_build_error, regex_captures,
    spans_well_placed, text_bytes, to_lowercase, lowercase_text, ENUM_HEADER, VARIANT_NAME,
};
use crate::text::{find_byte, first_byte_from, has_prefix_at, starts_with_at, str_eq, utf8};
use crate::lines::{find_from, first_match_from, lines, lines_of, trim};
use crate::discovery::contains_bytes;
use crate::scanner::{
    bodies_named, function_bodies, functions_of, pascal_to_snake, snake_case, trimmed_lines,
    ACRONYM_BOUNDARY, FUNCTION_HEADER, WORD_BOUNDARY,
};

verus! {

broadcast use vstd::utf8::encode_utf8_valid_utf8, vstd::utf8::encode_utf8_decode_utf8;

/// Texts held as a set, in ascending order.
pub open spec fn set_view(set: TextMap<()>) -> Set<Seq<char>> {
    set.view_map().dom()
}

/// Byte sequences read back as texts.
pub open spec fn decoded(items: Seq<Seq<u8>>) -> Seq<Seq<char>> {
    items.map_values(|item: Seq<u8>| decode_utf8(item))
}

/// Appending an item to a sequence adds exactly that item to its set.
pub proof fn lemma_push_to_set(items: Seq<Seq<char>>, item: Seq<char>)
    ensures
        items.push(item).to_set() == items.to_set().insert(item),
{
    let longer = items.push(item);
    assert forall|x: Seq<char>| longer.to_set().contains(x) <==> items.to_set().insert(item).contains(x) by {
        if longer.contains(x) {
            let k = choose|k: int| 0 <= k < longer.len() && longer[k] == x;
            if k < items.len() {
                assert(items[k] == x);
            }
        }
        if items.contains(x) {
            let k = choose|k: int| 0 <= k < items.len() && items[k] == x;
            assert(longer[k] == x);
        }
        if x == item {
            assert(longer[items.len() as int] == item);
        }
    }
    assert(longer.to_set() =~= items.to_set().insert(item));
}

/// An empty set of texts.
pub fn empty_set() -> (set: TextMap<()>)
    ensures
        set.wf(),
        set_view(set) == Set::<Seq<char>>::empty(),
{
    let set = TextMap::new();
    assert(set_view(set) =~= Set::<Seq<char>>::empty());
    set
}

/// Add a text to a set.
pub fn set_insert(set: &mut TextMap<()>, text: String)
    requires
        old(set).wf(),
    ensures
        final(set).wf(),
        set_view(*final(set)) == set_view(*old(set)).insert(text@),
{
    let ghost before = set_view(*set);
    set.insert(text, ());
    assert(set_view(*set) =~= before.insert(text@));
}

/// Add every text of a list to a set.
pub fn insert_texts(set: &mut TextMap<()>, texts: Vec<String>)
    requires
        old(set).wf(),
    ensures
        final(set).wf(),
        set_view(*final(set)) == set_view(*old(set)) + texts@.map_values(|t: String| t@).to_set(),
{
    let ghost start = set_view(*set);
    let ghost views = texts@.map_values(|t: String| t@);
    let mut i: usize = 0;
    while i < texts.len()
        invariant
            set.wf(),
            i <= texts@.len(),
            views == texts@.map_values(|t: String| t@),
            set_view(*set) == start + views.take(i as int).to_set(),
        decreases texts@.len() - i,
    {
        set_insert(set, texts[i].clone());
        assert(views.take(i + 1) =~= views.take(i as int).push(views[i as int]));
        proof {
            lemma_push_to_set(views.take(i as int), views[i as int]);
        }
        assert(set_view(*set) =~= start + views.take(i + 1).to_set());
        i = i + 1;
    }
    assert(views.take(texts@.len() as int) =~= views);
}

/// The texts group `g` of each match covers, for the matches where it took part.
pub open spec fn group_texts(bytes: Seq<u8>, captures: Seq<Seq<Option<(usize, usize)>>>, g: int) -> Seq<Seq<u8>>
    decreases captures.len(),
{
    if captures.len() == 0 {
        Seq::empty()
    } else {
        let earlier = group_texts(bytes, captures.drop_last(), g);
        match group_bytes(bytes, captures.last(), g) {
            Some(text) => earlier.push(text),
            None => earlier,
        }
    }
}

/// The text of group `g` in every match of `pattern`, in order.
pub fn all_group_texts(pattern: &'static str, text: &str, g: usize) -> (found: Result<Vec<String>, ExtractError>)
    ensures
        found is Err <==> regex_build_error(pattern@) is Some,
        found matches Ok(texts) ==> text_bytes(texts@) == group_texts(utf8(text@), regex_captures(pattern@, text@), g as int),
        found matches Err(error) ==> error is InvalidPattern,
{
    let captures = match captures_of(pattern, text) {
        Ok(captures) => captures,
        Err(error) => return Err(error),
    };
    let ghost caps = capture_views(captures@);
    let mut texts: Vec<String> = Vec::new();
    let mut m: usize = 0;
    while m < captures.len()
        invariant
            caps == capture_views(captures@),
            caps == regex_captures(pattern@, text@),
            spans_well_placed(caps, utf8(text@)),
            m <= captures@.len(),
            text_bytes(texts@) == group_texts(utf8(text@), caps.take(m as int), g as int),
        decreases captures@.len() - m,
    {
        let groups = &captures[m];
        assert(caps[m as int] == groups@);
        assert(caps.take(m + 1).drop_last() =~= caps.take(m as int));
        assert(caps.take(m + 1).last() == groups@);
        let ghost before = texts@;
        match group_text(text, groups, g) {
            Some(piece) => {
                texts.push(piece.to_owned());
                assert(text_bytes(texts@) =~= text_bytes(before).push(piece.spec_bytes()));
            },
            None => {},
        }
        m = m + 1;
    }
    assert(caps.take(captures@.len() as int) =~= caps);
    Ok(texts)
}

/// The variant names `StaticStrings::Name` mentions in a text, in order.
pub const STATIC_VARIANT: &'static str = r"StaticStrings::(\w+)";

/// The `StaticStrings` variants a text mentions, in order.
pub fn static_variants(source: &str) -> (found: Result<Vec<String>, ExtractError>)
    ensures
        found is Err <==> regex_build_error(STATIC_VARIANT@) is Some,
        found matches Ok(texts) ==> text_bytes(texts@) == group_texts(utf8(source@), regex_captures(STATIC_VARIANT@, source@), 1),
        found matches Err(error) ==> error is InvalidPattern,
{
    all_group_texts(STATIC_VARIANT, source, 1)
}

/// Builtin function names: the variants of `BuiltinsFunctions`, lowercased.
pub fn parse_builtin_functions(source: &str) -> (found: Result<TextMap<()>, ExtractError>)
    ensures
        found is Err <==> (regex_build_error(ENUM_HEADER@) is Some || regex_build_error(VARIANT_NAME@) is Some),
        found matches Ok(set) ==> set.wf() && set_view(set) == decoded(
            enum_variants_spec(source@, utf8("BuiltinsFunctions"@)),
        ).map_values(|v: Seq<char>| lowercase_text(v)).to_set(),
        found matches Err(error) ==> error is InvalidPattern,
{
    let variants = match parse_enum_variants(source, "BuiltinsFunctions") {
        Ok(variants) => variants,
        Err(error) => return Err(error),
    };
    let ghost expected = decoded(enum_variants_spec(source@, utf8("BuiltinsFunctions"@)));
    assert(decoded(text_bytes(variants@)) =~= variants@.map_values(|t: String| t@));
    let mut lowered: Vec<String> = Vec::new();
    let mut i: usize = 0;
    while i < variants.len()
        invariant
            i <= variants@.len(),
            expected == variants@.map_values(|t: String| t@),
            lowered@.len() == i,
            forall|k: int| 0 <= k < i ==> #[trigger] lowered@[k]@ == lowercase_text(expected[k]),
        decreases variants@.len() - i,
    {
        let low = to_lowercase(variants[i].as_str());
        lowered.push(low);
        i = i + 1;
    }
    assert(lowered@.map_values(|t: String| t@) =~= expected.map_values(|v: Seq<char>| lowercase_text(v)));
    let mut set = empty_set();
    insert_texts(&mut set, lowered);
    assert(set_view(set) =~= expected.map_values(|v: Seq<char>| lowercase_text(v)).to_set());
    Ok(set)
}

/// Exception type names: the variants of `ExcType`.
pub fn parse_exception_types(source: &str) -> (found: Result<TextMap<()>, ExtractError>)
    ensures
        found is Err <==> (regex_build_error(ENUM_HEADER@) is Some || regex_build_error(VARIANT_NAME@) is Some),
        found matches Ok(set) ==> set.wf() && set_view(set) == decoded(
            enum_variants_spec(source@, utf8("ExcType"@)),
        ).to_set(),
        found matches Err(error) ==> error is InvalidPattern,
{
    let variants = match parse_enum_variants(source, "ExcType") {
        Ok(variants) => variants,
        Err(error) => return Err(error),
    };
    assert(decoded(text_bytes(variants@)) =~= variants@.map_values(|t: String| t@));
    let mut set = empty_set();
    insert_texts(&mut set, variants);
    assert(set_view(set) =~= Set::<Seq<char>>::empty() + decoded(enum_variants_spec(source@, utf8("ExcType"@))).to_set());
    Ok(set)
}

/// Texts as their character sequences.
pub open spec fn text_views(texts: Seq<String>) -> Seq<Seq<char>> {
    texts.map_values(|t: String| t@)
}

/// A map of texts to texts by the characters of its values.
pub open spec fn text_map_view(map: TextMap<String>) -> Map<Seq<char>, Seq<char>> {
    Map::new(|k: Seq<char>| map.view_map().contains_key(k), |k: Seq<char>| map.view_map()[k]@)
}

/// The texts of each list lowercased.
pub fn lowercase_all(texts: &Vec<String>) -> (lowered: Vec<String>)
    ensures
        text_views(lowered@) == text_views(texts@).map_values(|v: Seq<char>| lowercase_text(v)),
{
    let mut lowered: Vec<String> = Vec::new();
    let mut i: usize = 0;
    while i < texts.len()
        invariant
            i <= texts@.len(),
            lowered@.len() == i,
            forall|k: int| 0 <= k < i ==> #[trigger] lowered@[k]@ == lowercase_text(texts@[k]@),
        decreases texts@.len() - i,
    {
        let low = to_lowercase(texts[i].as_str());
        lowered.push(low);
        i = i + 1;
    }
    assert(text_views(lowered@) =~= text_views(texts@).map_values(|v: Seq<char>| lowercase_text(v)));
    lowered
}

/// The first match's group `g`, when there is a match and the group took part.
pub open spec fn first_group(bytes: Seq<u8>, captures: Seq<Seq<Option<(usize, usize)>>>, g: int) -> Option<Seq<u8>> {
    if captures.len() > 0 {
        group_bytes(bytes, captures[0], g)
    } else {
        None
    }
}

/// Group `g` of the first match of `pattern` in `text`.
pub fn first_group_text<'a>(pattern: &'static str, text: &'a str, g: usize) -> (found: Result<Option<&'a str>, ExtractError>)
    ensures
        found is Err <==> regex_build_error(pattern@) is Some,
        found matches Ok(piece) ==> match piece {
            Some(p) => first_group(utf8(text@), regex_captures(pattern@, text@), g as int) == Some(p.spec_bytes()),
            None => first_group(utf8(text@), regex_captures(pattern@, text@), g as int) is None,
        },
        found matches Err(error) ==> error is InvalidPattern,
{
    let captures = match captures_of(pattern, text) {
        Ok(captures) => captures,
        Err(error) => return Err(error),
    };
    if captures.len() == 0 {
        return Ok(None);
    }
    proof {
        assert(capture_views(captures@)[0] == captures@[0]@);
    }
    Ok(group_text(text, &captures[0], g))
}

/// The pairs of groups `k` and `v` of every match, for the matches where both took part.
pub open spec fn group_pairs_spec(
    bytes: Seq<u8>,
    captures: Seq<Seq<Option<(usize, usize)>>>,
    k: int,
    v: int,
) -> Seq<(Seq<char>, Seq<char>)>
    decreases captures.len(),
{
    if captures.len() == 0 {
        Seq::empty()
    } else {
        let earlier = group_pairs_spec(bytes, captures.drop_last(), k, v);
        match (group_bytes(bytes, captures.last(), k), group_bytes(bytes, captures.last(), v)) {
            (Some(a), Some(b)) => earlier.push((decode_utf8(a), decode_utf8(b))),
            _ => earlier,
        }
    }
}

/// Pairs of texts by their characters.
pub open spec fn pair_views(pairs: Seq<(String, String)>) -> Seq<(Seq<char>, Seq<char>)> {
    pairs.map_values(|p: (String, String)| (p.0@, p.1@))
}

/// Groups `k` and `v` of every match of `pattern` in `text`, in order.
pub fn group_pairs(pattern: &'static str, text: &str, k: usize, v: usize) -> (found: Result<
    Vec<(String, String)>,
    ExtractError,
>)
    ensures
        found is Err <==> regex_build_error(pattern@) is Some,
        found matches Ok(pairs) ==> pair_views(pairs@) == group_pairs_spec(
            utf8(text@),
            regex_captures(pattern@, text@),
            k as int,
            v as int,
        ),
        found matches Err(error) ==> error is InvalidPattern,
{
    let captures = match captures_of(pattern, text) {
        Ok(captures) => captures,
        Err(error) => return Err(error),
    };
    let ghost caps = capture_views(captures@);
    let mut pairs: Vec<(String, String)> = Vec::new();
    let mut m: usize = 0;
    while m < captures.len()
        invariant
            caps == capture_views(captures@),
            caps == regex_captures(pattern@, text@),
            spans_well_placed(caps, utf8(text@)),
            m <= captures@.len(),
            pair_views(pairs@) == group_pairs_spec(utf8(text@), caps.take(m as int), k as int, v as int),
        decreases captures@.len() - m,
    {
        let groups = &captures[m];
        assert(caps[m as int] == groups@);
        assert(caps.take(m + 1).drop_last() =~= caps.take(m as int));
        assert(caps.take(m + 1).last() == groups@);
        let ghost before = pairs@;
        match (group_text(text, groups, k), group_text(text, groups, v)) {
            (Some(a), Some(b)) => {
                pairs.push((a.to_owned(), b.to_owned()));
                assert(pair_views(pairs@) =~= pair_views(before).push((a@, b@)));
            },
            _ => {},
        }
        m = m + 1;
    }
    assert(caps.take(captures@.len() as int) =~= caps);
    Ok(pairs)
}

/// A map after storing each pair in turn, a later pair replacing an earlier one.
pub open spec fn with_pairs(map: Map<Seq<char>, Seq<char>>, pairs: Seq<(Seq<char>, Seq<char>)>) -> Map<
    Seq<char>,
    Seq<char>,
>
    decreases pairs.len(),
{
    if pairs.len() == 0 {
        map
    } else {
        with_pairs(map, pairs.drop_last()).insert(pairs.last().0, pairs.last().1)
    }
}

/// Storing two runs of pairs is storing the first run, then the second.
pub proof fn lemma_with_pairs_concat(
    map: Map<Seq<char>, Seq<char>>,
    first: Seq<(Seq<char>, Seq<char>)>,
    second: Seq<(Seq<char>, Seq<char>)>,
)
    ensures
        with_pairs(map, first + second) == with_pairs(with_pairs(map, first), second),
    decreases second.len(),
{
    if second.len() == 0 {
        assert(first + second =~= first);
    } else {
        assert((first + second).drop_last() =~= first + second.drop_last());
        lemma_with_pairs_concat(map, first, second.drop_last());
    }
}

/// Store every pair in a map, in order.
pub fn insert_pairs(map: &mut TextMap<String>, pairs: Vec<(String, String)>)
    requires
        old(map).wf(),
    ensures
        final(map).wf(),
        text_map_view(*final(map)) == with_pairs(text_map_view(*old(map)), pair_views(pairs@)),
{
    let ghost start = text_map_view(*map);
    let ghost views = pair_views(pairs@);
    let mut i: usize = 0;
    while i < pairs.len()
        invariant
            map.wf(),
            i <= pairs@.len(),
            views == pair_views(pairs@),
            text_map_view(*map) == with_pairs(start, views.take(i as int)),
        decreases pairs@.len() - i,
    {
        let ghost before = text_map_view(*map);
        let key = pairs[i].0.clone();
        let value = pairs[i].1.clone();
        map.insert(key, value);
        assert(views.take(i + 1).drop_last() =~= views.take(i as int));
        assert(text_map_view(*map) =~= before.insert(views[i as int].0, views[i as int].1));
        i = i + 1;
    }
    assert(views.take(pairs@.len() as int) =~= views);
}

/// A builtin type's Python name mapped to its variant inside `from_builtin_name`.
pub const TYPE_NAME_MAPPING: &'static str = r#""([^"]+)"\s*=>\s*Some\(Self::(\w+)\)"#;

/// The (variant, Python name) pairs each body maps, body after body.
pub open spec fn type_name_pairs(bodies: Seq<Seq<u8>>) -> Seq<(Seq<char>, Seq<char>)>
    decreases bodies.len(),
{
    if bodies.len() == 0 {
        Seq::empty()
    } else {
        type_name_pairs(bodies.drop_last()) + group_pairs_spec(
            bodies.last(),
            regex_captures(TYPE_NAME_MAPPING@, decode_utf8(bodies.last())),
            2,
            1,
        )
    }
}

/// The bodies of the functions called `name` in a source.
pub open spec fn named_bodies(source: Seq<char>, name: Seq<char>) -> Seq<Seq<u8>> {
    bodies_named(functions_of(utf8(source), regex_captures(FUNCTION_HEADER@, source)), utf8(name))
}

/// Builtin type constructors: each variant mapped to the Python name that
/// `from_builtin_name` resolves to it; a later mapping of a variant wins.
pub fn parse_builtin_type_variants(source: &str) -> (found: Result<TextMap<String>, ExtractError>)
    ensures
        (regex_build_error(TYPE_NAME_MAPPING@) is None && regex_build_error(FUNCTION_HEADER@) is None)
            ==> found is Ok,
        found matches Ok(map) ==> map.wf() && text_map_view(map) == with_pairs(
            Map::empty(),
            type_name_pairs(named_bodies(source@, "from_builtin_name"@)),
        ),
        found matches Err(error) ==> error is InvalidPattern,
{
    match captures_of(TYPE_NAME_MAPPING, "") {
        Ok(_) => {},
        Err(error) => return Err(error),
    }
    let bodies = match function_bodies(source, "from_builtin_name") {
        Ok(bodies) => bodies,
        Err(error) => return Err(error),
    };
    let ghost all = bodies@.map_values(|body: String| utf8(body@));
    let mut map: TextMap<String> = TextMap::new();
    assert(text_map_view(map) =~= Map::empty());
    let mut i: usize = 0;
    while i < bodies.len()
        invariant
            map.wf(),
            regex_build_error(TYPE_NAME_MAPPING@) is None,
            all == bodies@.map_values(|body: String| utf8(body@)),
            all == named_bodies(source@, "from_builtin_name"@),
            i <= bodies@.len(),
            text_map_view(map) == with_pairs(Map::empty(), type_name_pairs(all.take(i as int))),
        decreases bodies@.len() - i,
    {
        let pairs = match group_pairs(TYPE_NAME_MAPPING, bodies[i].as_str(), 2, 1) {
            Ok(pairs) => pairs,
            Err(error) => return Err(error),
        };
        proof {
            assert(all.take(i + 1).drop_last() =~= all.take(i as int));
            assert(all[i as int] == utf8(bodies@[i as int]@));
            lemma_with_pairs_concat(
                Map::empty(),
                type_name_pairs(all.take(i as int)),
                pair_views(pairs@),
            );
        }
        insert_pairs(&mut map, pairs);
        i = i + 1;
    }
    assert(all.take(bodies@.len() as int) =~= all);
    Ok(map)
}

/// The header of the `StaticStrings` enum.
pub const STATIC_STRINGS_HEADER: &'static str = r"\bpub(?:\([^)]*\))?\s+enum\s+StaticStrings\s*\{";

/// A `#[strum(serialize = "...")]` attribute, capturing the serialized name.
pub const SERIALIZE_ATTRIBUTE: &'static str = r#"#\[strum\(serialize\s*=\s*"([^"]*)"\)\]"#;

/// A capitalized variant name.
pub const STATIC_VARIANT_NAME: &'static str = r"([A-Z]\w*)";

/// The braced body of the first `StaticStrings` enum header, when it has one.
pub open spec fn static_strings_body(source: Seq<char>) -> Option<Seq<u8>> {
    let bytes = utf8(source);
    let captures = regex_captures(STATIC_STRINGS_HEADER@, source);
    if captures.len() > 0 {
        match group_span(captures[0], 0) {
            Some((start, _)) => match first_byte_from(bytes, start, 0x7b) {
                Some(open) => delimited_spec(bytes, open, 0x7b, 0x7d),
                None => None,
            },
            None => None,
        }
    } else {
        None
    }
}

/// One trimmed line of the `StaticStrings` body read into the names so far and
/// the serialized name waiting for its variant: a serialize attribute sets the
/// waiting name, and a variant takes it, or its snake-case form when none waits.
pub open spec fn static_name_step(
    state: (Map<Seq<char>, Seq<char>>, Option<Seq<char>>),
    line: Seq<u8>,
) -> (Map<Seq<char>, Seq<char>>, Option<Seq<char>>) {
    if line.len() == 0 || has_prefix_at(line, 0, seq![0x2fu8, 0x2fu8]) {
        state
    } else {
        match first_group(line, regex_captures(SERIALIZE_ATTRIBUTE@, decode_utf8(line)), 1) {
            Some(name) => (state.0, Some(decode_utf8(name))),
            None => if line[0] == 0x23 {
                state
            } else {
                match first_group(line, regex_captures(STATIC_VARIANT_NAME@, decode_utf8(line)), 1) {
                    Some(found) => {
                        let variant = decode_utf8(found);
                        let python = match state.1 {
                            Some(name) => name,
                            None => snake_case(variant),
                        };
                        (state.0.insert(variant, python), None)
                    },
                    None => state,
                }
            },
        }
    }
}

/// The names and the waiting name after reading `lines` in order.
pub open spec fn static_names_after(lines: Seq<Seq<u8>>) -> (Map<Seq<char>, Seq<char>>, Option<Seq<char>>)
    decreases lines.len(),
{
    if lines.len() == 0 {
        (Map::empty(), None)
    } else {
        static_name_step(static_names_after(lines.drop_last()), lines.last())
    }
}

/// The Python name of every `StaticStrings` variant.
pub open spec fn static_names_spec(source: Seq<char>) -> Map<Seq<char>, Seq<char>> {
    match static_strings_body(source) {
        Some(body) => static_names_after(trimmed_lines(body)).0,
        None => Map::empty(),
    }
}

/// The patterns the `StaticStrings` reader uses all compile.
pub open spec fn static_names_compile() -> bool {
    &&& regex_build_error(STATIC_STRINGS_HEADER@) is None
    &&& regex_build_error(SERIALIZE_ATTRIBUTE@) is None
    &&& regex_build_error(STATIC_VARIANT_NAME@) is None
    &&& regex_build_error(ACRONYM_BOUNDARY@) is None
    &&& regex_build_error(WORD_BOUNDARY@) is None
}

fn static_names_in_body(body: &str) -> (found: Result<TextMap<String>, ExtractError>)
    ensures
        static_names_compile() ==> found is Ok,
        found matches Ok(map) ==> map.wf() && text_map_view(map) == static_names_after(
            trimmed_lines(body.spec_bytes()),
        ).0,
        found matches Err(error) ==> error is InvalidPattern,
{
    match captures_of(SERIALIZE_ATTRIBUTE, "") {
        Ok(_) => {},
        Err(error) => return Err(error),
    }
    match captures_of(STATIC_VARIANT_NAME, "") {
        Ok(_) => {},
        Err(error) => return Err(error),
    }
    let rows = lines(body);
    let ghost all = trimmed_lines(body.spec_bytes());
    let comment = "//";
    proof {
        reveal_strlit("//");
        vstd::utf8::is_ascii_chars_encode_utf8(comment@);
        assert(comment.spec_bytes() =~= seq![0x2fu8, 0x2fu8]);
    }
    let mut names: TextMap<String> = TextMap::new();
    let mut pending: Option<String> = None;
    assert(text_map_view(names) =~= Map::empty());
    let mut i: usize = 0;
    while i < rows.len()
        invariant
            names.wf(),
            crate::text::byte_views(rows@) == lines_of(body.spec_bytes()),
            all == trimmed_lines(body.spec_bytes()),
            comment.spec_bytes() == seq![0x2fu8, 0x2fu8],
            i <= rows@.len(),
            text_map_view(names) == static_names_after(all.take(i as int)).0,
            crate::text::text_option(pending) == static_names_after(all.take(i as int)).1,
        decreases rows@.len() - i,
    {
        let line = trim(rows[i]);
        proof {
            assert(rows@[i as int].spec_bytes() == lines_of(body.spec_bytes())[i as int]);
            vstd::utf8::encode_utf8_decode_utf8(rows@[i as int]@);
            assert(line.spec_bytes() == all[i as int]);
            assert(all.take(i + 1).drop_last() =~= all.take(i as int));
            assert(all.take(i + 1).last() == all[i as int]);
            vstd::utf8::encode_utf8_decode_utf8(line@);
        }
        let bytes = line.as_bytes();
        if bytes.len() > 0 && !starts_with_at(bytes, 0, comment.as_bytes()) {
            let serialized = match first_group_text(SERIALIZE_ATTRIBUTE, line, 1) {
                Ok(found) => found,
                Err(error) => return Err(error),
            };
            match serialized {
                Some(name) => {
                    pending = Some(name.to_owned());
                },
                None => {
                    if bytes[0] != 0x23 {
                        let declared = match first_group_text(STATIC_VARIANT_NAME, line, 1) {
                            Ok(found) => found,
                            Err(error) => return Err(error),
                        };
                        match declared {
                            Some(variant) => {
                                let python = match pending {
                                    Some(name) => name,
                                    None => match pascal_to_snake(variant) {
                                        Ok(snake) => snake,
                                        Err(error) => return Err(error),
                                    },
                                };
                                pending = None;
                                let ghost before = text_map_view(names);
                                names.insert(variant.to_owned(), python);
                                assert(text_map_view(names) =~= before.insert(variant@, python@));
                            },
                            None => {},
                        }
                    }
                },
            }
        }
        i = i + 1;
    }
    assert(all.take(rows@.len() as int) =~= all);
    Ok(names)
}

/// The Python name of every `StaticStrings` variant: the serialized name its
/// `strum` attribute gives, else the variant's snake-case form.
pub fn parse_static_strings_map(source: &str) -> (found: Result<TextMap<String>, ExtractError>)
    ensures
        static_names_compile() ==> found is Ok,
        found matches Ok(map) ==> map.wf() && text_map_view(map) == static_names_spec(source@),
        found matches Err(error) ==> error is InvalidPattern,
{
    let captures = match captures_of(STATIC_STRINGS_HEADER, source) {
        Ok(captures) => captures,
        Err(error) => return Err(error),
    };
    let empty: TextMap<String> = TextMap::new();
    assert(text_map_view(empty) =~= Map::empty());
    if captures.len() == 0 {
        return Ok(empty);
    }
    proof {
        assert(capture_views(captures@)[0] == captures@[0]@);
    }
    let start = match captures[0][0] {
        Some((start, _)) => start,
        None => return Ok(empty),
    };
    let open = match find_byte(source.as_bytes(), start, 0x7b) {
        Some(open) => open,
        None => return Ok(empty),
    };
    let body = match delimited_at(source, open, 0x7b, 0x7d) {
        Some(body) => body,
        None => return Ok(empty),
    };
    proof {
        vstd::utf8::encode_utf8_decode_utf8(body@);
    }
    static_names_in_body(body)
}

/// Whether `needle` occurs in `haystack`.
pub fn contains_text(haystack: &str, needle: &str) -> (found: bool)
    ensures
        found == contains_bytes(haystack.spec_bytes(), needle.spec_bytes()),
{
    if needle.as_bytes().len() == 0 {
        assert(haystack.spec_bytes().subrange(0, 0) =~= needle.spec_bytes());
        return true;
    }
    find_from(haystack.as_bytes(), 0, needle.as_bytes()).is_some()
}

/// The Python names of the variants the names map knows, in order.
pub open spec fn known_names(variants: Seq<Seq<char>>, names: Map<Seq<char>, Seq<char>>) -> Seq<Seq<char>>
    decreases variants.len(),
{
    if variants.len() == 0 {
        Seq::empty()
    } else {
        let earlier = known_names(variants.drop_last(), names);
        if names.contains_key(variants.last()) {
            earlier.push(names[variants.last()])
        } else {
            earlier
        }
    }
}

/// The Python name of each variant the names map knows.
pub fn lookup_names(variants: &Vec<String>, names: &TextMap<String>) -> (found: Vec<String>)
    requires
        names.wf(),
    ensures
        text_views(found@) == known_names(text_views(variants@), text_map_view(*names)),
{
    let ghost views = text_views(variants@);
    let mut found: Vec<String> = Vec::new();
    let mut i: usize = 0;
    while i < variants.len()
        invariant
            names.wf(),
            views == text_views(variants@),
            i <= variants@.len(),
            text_views(found@) == known_names(views.take(i as int), text_map_view(*names)),
        decreases variants@.len() - i,
    {
        assert(views.take(i + 1).drop_last() =~= views.take(i as int));
        assert(views.take(i + 1).last() == variants@[i as int]@);
        let ghost before = found@;
        match names.get(variants[i].as_str()) {
            Some(name) => {
                found.push(name.clone());
                assert(text_views(found@) =~= text_views(before).push(name@));
            },
            None => {},
        }
        i = i + 1;
    }
    assert(views.take(variants@.len() as int) =~= views);
    found
}

/// A `StaticStrings` variant dispatched to a module constructor.
pub const MODULE_DISPATCH: &'static str = r"StaticStrings::(\w+)\s*=>\s*Some\(Self::";

/// The builtin modules: the names the module constructor dispatches to, else
/// the lowercased variants of `StandardLib`, else those of `BuiltinModule`.
pub open spec fn builtin_modules_spec(source: Seq<char>, names: Map<Seq<char>, Seq<char>>) -> Set<Seq<char>> {
    let dispatched = known_names(
        decoded(group_texts(utf8(source), regex_captures(MODULE_DISPATCH@, source), 1)),
        names,
    );
    let standard = enum_variants_spec(source, utf8("StandardLib"@));
    let builtin = enum_variants_spec(source, utf8("BuiltinModule"@));
    if dispatched.len() > 0 {
        dispatched.to_set()
    } else if standard.len() > 0 {
        decoded(standard).map_values(|v: Seq<char>| lowercase_text(v)).to_set()
    } else if builtin.len() > 0 {
        decoded(builtin).map_values(|v: Seq<char>| lowercase_text(v)).to_set()
    } else {
        Set::empty()
    }
}

/// The patterns the module readers use all compile.
pub open spec fn module_patterns_compile() -> bool {
    &&& regex_build_error(MODULE_DISPATCH@) is None
    &&& regex_build_error(ENUM_HEADER@) is None
    &&& regex_build_error(VARIANT_NAME@) is None
}

/// The names of the builtin modules a release declares.
pub fn parse_builtin_modules(source: &str, static_strings: &TextMap<String>) -> (found: Result<
    TextMap<()>,
    ExtractError,
>)
    requires
        static_strings.wf(),
    ensures
        module_patterns_compile() ==> found is Ok,
        found matches Ok(set) ==> set.wf() && set_view(set) == builtin_modules_spec(
            source@,
            text_map_view(*static_strings),
        ),
        found matches Err(error) ==> error is InvalidPattern,
{
    let variants = match all_group_texts(MODULE_DISPATCH, source, 1) {
        Ok(variants) => variants,
        Err(error) => return Err(error),
    };
    assert(decoded(text_bytes(variants@)) =~= text_views(variants@));
    let dispatched = lookup_names(&variants, static_strings);
    if dispatched.len() > 0 {
        let mut set = empty_set();
        insert_texts(&mut set, dispatched);
        assert(set_view(set) =~= Set::<Seq<char>>::empty() + text_views(dispatched@).to_set());
        return Ok(set);
    }
    let standard = match parse_enum_variants(source, "StandardLib") {
        Ok(variants) => variants,
        Err(error) => return Err(error),
    };
    if standard.len() > 0 {
        assert(decoded(text_bytes(standard@)) =~= text_views(standard@));
        let lowered = lowercase_all(&standard);
        let mut set = empty_set();
        insert_texts(&mut set, lowered);
        assert(set_view(set) =~= Set::<Seq<char>>::empty() + text_views(lowered@).to_set());
        return Ok(set);
    }
    let builtin = match parse_enum_variants(source, "BuiltinModule") {
        Ok(variants) => variants,
        Err(error) => return Err(error),
    };
    assert(decoded(text_bytes(builtin@)) =~= text_views(builtin@));
    let lowered = lowercase_all(&builtin);
    let mut set = empty_set();
    insert_texts(&mut set, lowered);
    assert(set_view(set) =~= Set::<Seq<char>>::empty() + text_views(lowered@).to_set());
    if builtin.len() == 0 {
        assert(text_views(lowered@).len() == 0);
        assert(set_view(set) =~= Set::<Seq<char>>::empty());
    }
    Ok(set)
}

/// A `module.set_attr(` call.
pub const SET_ATTR_CALL: &'static str = r"\bmodule\.set_attr\s*\(";

/// A first argument naming a `StaticStrings` variant.
pub const STATIC_FIRST_ARGUMENT: &'static str = r"^\s*\*?StaticStrings::(\w+)";

/// The parenthesized text after the first `opening` byte at or after `start`.
pub open spec fn delimited_after(bytes: Seq<u8>, start: int, opening: u8, closing: u8) -> Option<Seq<u8>> {
    match first_byte_from(bytes, start, opening) {
        Some(open) => delimited_spec(bytes, open, opening, closing),
        None => None,
    }
}

/// The (variant, arguments) of each `module.set_attr` call whose first argument
/// names a `StaticStrings` variant, in order.
pub open spec fn set_attr_calls_spec(bytes: Seq<u8>, captures: Seq<Seq<Option<(usize, usize)>>>) -> Seq<
    (Seq<char>, Seq<char>),
>
    decreases captures.len(),
{
    if captures.len() == 0 {
        Seq::empty()
    } else {
        let earlier = set_attr_calls_spec(bytes, captures.drop_last());
        match group_span(captures.last(), 0) {
            Some((start, _)) => match delimited_after(bytes, start, 0x28, 0x29) {
                Some(arguments) => match first_group(
                    arguments,
                    regex_captures(STATIC_FIRST_ARGUMENT@, decode_utf8(arguments)),
                    1,
                ) {
                    Some(variant) => earlier.push((decode_utf8(variant), decode_utf8(arguments))),
                    None => earlier,
                },
                None => earlier,
            },
            None => earlier,
        }
    }
}

/// The delimited text after the first `opening` byte at or after `start`.
pub fn delimited_after_at<'a>(source: &'a str, start: usize, opening: u8, closing: u8) -> (contents: Option<&'a str>)
    ensures
        match contents {
            Some(p) => delimited_after(source.spec_bytes(), start as int, opening, closing) == Some(p.spec_bytes()),
            None => delimited_after(source.spec_bytes(), start as int, opening, closing) is None,
        },
{
    match find_byte(source.as_bytes(), start, opening) {
        Some(open) => delimited_at(source, open, opening, closing),
        None => None,
    }
}

/// Every `module.set_attr` call of a text whose first argument is a `StaticStrings` variant.
pub fn module_set_attr_calls(source: &str) -> (found: Result<Vec<(String, String)>, ExtractError>)
    ensures
        (regex_build_error(SET_ATTR_CALL@) is None && regex_build_error(STATIC_FIRST_ARGUMENT@) is None)
            ==> found is Ok,
        found matches Ok(calls) ==> pair_views(calls@) == set_attr_calls_spec(
            utf8(source@),
            regex_captures(SET_ATTR_CALL@, source@),
        ),
        found matches Err(error) ==> error is InvalidPattern,
{
    let captures = match captures_of(SET_ATTR_CALL, source) {
        Ok(captures) => captures,
        Err(error) => return Err(error),
    };
    match captures_of(STATIC_FIRST_ARGUMENT, "") {
        Ok(_) => {},
        Err(error) => return Err(error),
    }
    let ghost caps = capture_views(captures@);
    let mut calls: Vec<(String, String)> = Vec::new();
    let mut m: usize = 0;
    while m < captures.len()
        invariant
            caps == capture_views(captures@),
            caps == regex_captures(SET_ATTR_CALL@, source@),
            spans_well_placed(caps, utf8(source@)),
            regex_build_error(STATIC_FIRST_ARGUMENT@) is None,
            m <= captures@.len(),
            pair_views(calls@) == set_attr_calls_spec(utf8(source@), caps.take(m as int)),
        decreases captures@.len() - m,
    {
        let groups = &captures[m];
        assert(caps[m as int] == groups@);
        assert(caps.take(m + 1).drop_last() =~= caps.take(m as int));
        assert(caps.take(m + 1).last() == groups@);
        let ghost before = calls@;
        let start = match groups[0] {
            Some((start, _)) => start,
            None => 0,
        };
        if let Some(arguments) = delimited_after_at(source, start, 0x28, 0x29) {
            proof {
                vstd::utf8::encode_utf8_decode_utf8(arguments@);
            }
            let variant = match first_group_text(STATIC_FIRST_ARGUMENT, arguments, 1) {
                Ok(found) => found,
                Err(error) => return Err(error),
            };
            if let Some(variant) = variant {
                calls.push((variant.to_owned(), arguments.to_owned()));
                assert(pair_views(calls@) =~= pair_views(before).push((variant@, arguments@)));
            }
        }
        m = m + 1;
    }
    assert(caps.take(captures@.len() as int) =~= caps);
    Ok(calls)
}

/// A `const`, `static` or `let` binding, capturing its name.
pub const ARRAY_DECLARATION: &'static str = r"\b(?:const|static|let)\s+(\w+)\b";

/// A tuple that opens with a `StaticStrings` variant.
pub const TUPLE_KEY: &'static str = r"\(\s*StaticStrings::(\w+)";

/// The variants an array literal lists: the first members of its tuples when
/// it holds tuples keyed by variants, else every variant it mentions.
pub open spec fn array_values(values: Seq<u8>) -> Seq<Seq<char>> {
    let keys = decoded(group_texts(values, regex_captures(TUPLE_KEY@, decode_utf8(values)), 1));
    if keys.len() > 0 {
        keys
    } else {
        decoded(group_texts(values, regex_captures(STATIC_VARIANT@, decode_utf8(values)), 1))
    }
}

/// A map from texts to lists of texts by their characters.
pub open spec fn list_map_view(map: TextMap<Vec<String>>) -> Map<Seq<char>, Seq<Seq<char>>> {
    Map::new(|k: Seq<char>| map.view_map().contains_key(k), |k: Seq<char>| text_views(map.view_map()[k]@))
}

/// The arrays of `StaticStrings` variants each binding names, a later binding
/// of a name replacing an earlier one.
pub open spec fn arrays_spec(bytes: Seq<u8>, captures: Seq<Seq<Option<(usize, usize)>>>) -> Map<
    Seq<char>,
    Seq<Seq<char>>,
>
    decreases captures.len(),
{
    if captures.len() == 0 {
        Map::empty()
    } else {
        let earlier = arrays_spec(bytes, captures.drop_last());
        match (group_span(captures.last(), 0), group_bytes(bytes, captures.last(), 1)) {
            (Some((_, end)), Some(name)) => match first_byte_from(bytes, end, 0x3d) {
                Some(assignment) => match delimited_after(bytes, assignment, 0x5b, 0x5d) {
                    Some(values) => earlier.insert(decode_utf8(name), array_values(values)),
                    None => earlier,
                },
                None => earlier,
            },
            _ => earlier,
        }
    }
}

fn array_literal_values(values: &str) -> (found: Result<Vec<String>, ExtractError>)
    ensures
        (regex_build_error(TUPLE_KEY@) is None && regex_build_error(STATIC_VARIANT@) is None) ==> found is Ok,
        found matches Ok(variants) ==> text_views(variants@) == array_values(values.spec_bytes()),
        found matches Err(error) ==> error is InvalidPattern,
{
    proof {
        vstd::utf8::encode_utf8_decode_utf8(values@);
    }
    let keys = match all_group_texts(TUPLE_KEY, values, 1) {
        Ok(keys) => keys,
        Err(error) => return Err(error),
    };
    assert(decoded(text_bytes(keys@)) =~= text_views(keys@));
    if keys.len() > 0 {
        return Ok(keys);
    }
    let any = match static_variants(values) {
        Ok(any) => any,
        Err(error) => return Err(error),
    };
    assert(decoded(text_bytes(any@)) =~= text_views(any@));
    Ok(any)
}

/// The `StaticStrings` variants each array binding of a source lists.
pub fn static_string_arrays(source: &str) -> (found: Result<TextMap<Vec<String>>, ExtractError>)
    ensures
        (regex_build_error(ARRAY_DECLARATION@) is None && regex_build_error(TUPLE_KEY@) is None
            && regex_build_error(STATIC_VARIANT@) is None) ==> found is Ok,
        found matches Ok(arrays) ==> arrays.wf() && list_map_view(arrays) == arrays_spec(
            utf8(source@),
            regex_captures(ARRAY_DECLARATION@, source@),
        ),
        found matches Err(error) ==> error is InvalidPattern,
{
    let captures = match captures_of(ARRAY_DECLARATION, source) {
        Ok(captures) => captures,
        Err(error) => return Err(error),
    };
    match captures_of(TUPLE_KEY, "") {
        Ok(_) => {},
        Err(error) => return Err(error),
    }
    match captures_of(STATIC_VARIANT, "") {
        Ok(_) => {},
        Err(error) => return Err(error),
    }
    let ghost caps = capture_views(captures@);
    let mut arrays: TextMap<Vec<String>> = TextMap::new();
    assert(list_map_view(arrays) =~= Map::empty());
    let mut m: usize = 0;
    while m < captures.len()
        invariant
            arrays.wf(),
            caps == capture_views(captures@),
            caps == regex_captures(ARRAY_DECLARATION@, source@),
            spans_well_placed(caps, utf8(source@)),
            regex_build_error(TUPLE_KEY@) is None,
            regex_build_error(STATIC_VARIANT@) is None,
            m <= captures@.len(),
            list_map_view(arrays) == arrays_spec(utf8(source@), caps.take(m as int)),
        decreases captures@.len() - m,
    {
        let groups = &captures[m];
        assert(caps[m as int] == groups@);
        assert(caps.take(m + 1).drop_last() =~= caps.take(m as int));
        assert(caps.take(m + 1).last() == groups@);
        let end = match groups[0] {
            Some((_, end)) => end,
            None => 0,
        };
        if let Some(name) = group_text(source, groups, 1) {
            if let Some(assignment) = find_byte(source.as_bytes(), end, 0x3d) {
                if let Some(values) = delimited_after_at(source, assignment, 0x5b, 0x5d) {
                    let variants = match array_literal_values(values) {
                        Ok(variants) => variants,
                        Err(error) => return Err(error),
                    };
                    let ghost before = list_map_view(arrays);
                    let ghost listed = text_views(variants@);
                    arrays.insert(name.to_owned(), variants);
                    assert(list_map_view(arrays) =~= before.insert(name@, listed));
                }
            }
        }
        m = m + 1;
    }
    assert(caps.take(captures@.len() as int) =~= caps);
    Ok(arrays)
}

/// The header of a `for` loop over a named collection, capturing its name.
pub const LOOP_HEADER: &'static str = r"\bfor\b[^{};]*\bin\s+(\w+)\s*\{";

/// The variants listed by the arrays that loops calling `module.set_attr` walk, in order.
pub open spec fn loop_values_spec(
    bytes: Seq<u8>,
    captures: Seq<Seq<Option<(usize, usize)>>>,
    arrays: Map<Seq<char>, Seq<Seq<char>>>,
) -> Seq<Seq<char>>
    decreases captures.len(),
{
    if captures.len() == 0 {
        Seq::empty()
    } else {
        let earlier = loop_values_spec(bytes, captures.drop_last(), arrays);
        match (group_span(captures.last(), 0), group_bytes(bytes, captures.last(), 1)) {
            (Some((start, _)), Some(name)) => match delimited_after(bytes, start, 0x7b, 0x7d) {
                Some(body) => if contains_bytes(body, utf8("module.set_attr"@)) && arrays.contains_key(
                    decode_utf8(name),
                ) {
                    earlier + arrays[decode_utf8(name)]
                } else {
                    earlier
                },
                None => earlier,
            },
            _ => earlier,
        }
    }
}

/// The `module.set_attr` calls of a text.
pub open spec fn set_attr_calls_of(text: Seq<char>) -> Seq<(Seq<char>, Seq<char>)> {
    set_attr_calls_spec(utf8(text), regex_captures(SET_ATTR_CALL@, text))
}

/// The Python names of the attributes a module constructor registers: by a
/// direct `module.set_attr` call, or by a loop over an array of the source.
pub open spec fn module_attribute_names(
    create_body: Seq<char>,
    source: Seq<char>,
    names: Map<Seq<char>, Seq<char>>,
) -> Set<Seq<char>> {
    let direct = set_attr_calls_of(create_body).map_values(|call: (Seq<char>, Seq<char>)| call.0);
    let looped = loop_values_spec(
        utf8(create_body),
        regex_captures(LOOP_HEADER@, create_body),
        arrays_spec(utf8(source), regex_captures(ARRAY_DECLARATION@, source)),
    );
    known_names(direct + looped, names).to_set()
}

/// The patterns the module constructor readers use all compile.
pub open spec fn registration_patterns_compile() -> bool {
    &&& regex_build_error(SET_ATTR_CALL@) is None
    &&& regex_build_error(STATIC_FIRST_ARGUMENT@) is None
    &&& regex_build_error(ARRAY_DECLARATION@) is None
    &&& regex_build_error(TUPLE_KEY@) is None
    &&& regex_build_error(STATIC_VARIANT@) is None
    &&& regex_build_error(LOOP_HEADER@) is None
    &&& regex_build_error(RUNTIME_TYPE_BINDING@) is None
    &&& regex_build_error(MODULE_CREATION@) is None
    &&& regex_build_error(FUNCTION_HEADER@) is None
}

/// The Python names of the attributes a module constructor body registers.
pub fn registered_module_attributes(create_body: &str, source: &str, static_strings: &TextMap<String>) -> (found:
    Result<TextMap<()>, ExtractError>)
    requires
        static_strings.wf(),
    ensures
        registration_patterns_compile() ==> found is Ok,
        found matches Ok(set) ==> set.wf() && set_view(set) == module_attribute_names(
            create_body@,
            source@,
            text_map_view(*static_strings),
        ),
        found matches Err(error) ==> error is InvalidPattern,
{
    let calls = match module_set_attr_calls(create_body) {
        Ok(calls) => calls,
        Err(error) => return Err(error),
    };
    let arrays = match static_string_arrays(source) {
        Ok(arrays) => arrays,
        Err(error) => return Err(error),
    };
    let captures = match captures_of(LOOP_HEADER, create_body) {
        Ok(captures) => captures,
        Err(error) => return Err(error),
    };
    let ghost direct = set_attr_calls_of(create_body@).map_values(|call: (Seq<char>, Seq<char>)| call.0);
    let mut variants: Vec<String> = Vec::new();
    let mut i: usize = 0;
    while i < calls.len()
        invariant
            pair_views(calls@) == set_attr_calls_of(create_body@),
            direct == set_attr_calls_of(create_body@).map_values(|call: (Seq<char>, Seq<char>)| call.0),
            i <= calls@.len(),
            text_views(variants@) == direct.take(i as int),
        decreases calls@.len() - i,
    {
        let ghost before = variants@;
        let variant = calls[i].0.clone();
        variants.push(variant);
        assert(text_views(variants@) =~= text_views(before).push(variant@));
        assert(direct[i as int] == pair_views(calls@)[i as int].0);
        assert(direct.take(i + 1) =~= direct.take(i as int).push(direct[i as int]));
        assert(text_views(variants@) =~= direct.take(i + 1));
        i = i + 1;
    }
    assert(direct.take(calls@.len() as int) =~= direct);
    let ghost caps = capture_views(captures@);
    let ghost arrays_view = list_map_view(arrays);
    let ghost bytes = utf8(create_body@);
    let mut m: usize = 0;
    while m < captures.len()
        invariant
            arrays.wf(),
            arrays_view == list_map_view(arrays),
            bytes == utf8(create_body@),
            caps == capture_views(captures@),
            caps == regex_captures(LOOP_HEADER@, create_body@),
            spans_well_placed(caps, bytes),
            m <= captures@.len(),
            text_views(variants@) == direct + loop_values_spec(bytes, caps.take(m as int), arrays_view),
        decreases captures@.len() - m,
    {
        let groups = &captures[m];
        assert(caps[m as int] == groups@);
        assert(caps.take(m + 1).drop_last() =~= caps.take(m as int));
        assert(caps.take(m + 1).last() == groups@);
        let start = match groups[0] {
            Some((start, _)) => start,
            None => 0,
        };
        if let Some(name) = group_text(create_body, groups, 1) {
            if let Some(body) = delimited_after_at(create_body, start, 0x7b, 0x7d) {
                let marker = "module.set_attr";
                if contains_text(body, marker) {
                    if let Some(values) = arrays.get(name) {
                        let ghost before = text_views(variants@);
                        let mut j: usize = 0;
                        while j < values.len()
                            invariant
                                j <= values@.len(),
                                text_views(variants@) == before + text_views(values@).take(j as int),
                            decreases values@.len() - j,
                        {
                            let ghost step = text_views(variants@);
                            variants.push(values[j].clone());
                            assert(text_views(variants@) =~= step.push(values@[j as int]@));
                            assert(text_views(values@).take(j + 1) =~= text_views(values@).take(j as int).push(values@[j as int]@));
                            assert(before + text_views(values@).take(j + 1) =~= (before + text_views(values@).take(j as int)).push(values@[j as int]@));
                            j = j + 1;
                        }
                        assert(text_views(values@).take(values@.len() as int) =~= text_views(values@));
                        assert(arrays_view[name@] == text_views(values@));
                    }
                }
            }
        }
        let ghost looped = loop_values_spec(bytes, caps.take(m + 1), arrays_view);
        assert(text_views(variants@) =~= direct + looped) by {
            assert(direct + looped =~= direct + loop_values_spec(bytes, caps.take(m + 1), arrays_view));
        };
        m = m + 1;
    }
    assert(caps.take(captures@.len() as int) =~= caps);
    let found = lookup_names(&variants, static_strings);
    let mut set = empty_set();
    insert_texts(&mut set, found);
    assert(set_view(set) =~= Set::<Seq<char>>::empty() + text_views(found@).to_set());
    Ok(set)
}

/// A module attribute bound to a runtime type, capturing the type's variant.
pub const RUNTIME_TYPE_BINDING: &'static str = r"Builtins::Type\(Type::(\w+)\)";

/// The (Python name, type variant) of each call binding a known attribute to a runtime type.
pub open spec fn binding_pairs(calls: Seq<(Seq<char>, Seq<char>)>, names: Map<Seq<char>, Seq<char>>) -> Seq<
    (Seq<char>, Seq<char>),
>
    decreases calls.len(),
{
    if calls.len() == 0 {
        Seq::empty()
    } else {
        let earlier = binding_pairs(calls.drop_last(), names);
        let (variant, arguments) = calls.last();
        match first_group(utf8(arguments), regex_captures(RUNTIME_TYPE_BINDING@, arguments), 1) {
            Some(type_variant) => if names.contains_key(variant) {
                earlier.push((names[variant], decode_utf8(type_variant)))
            } else {
                earlier
            },
            None => earlier,
        }
    }
}

/// The runtime type each attribute a module constructor registers is bound to.
pub open spec fn module_bindings_spec(create_body: Seq<char>, names: Map<Seq<char>, Seq<char>>) -> Map<
    Seq<char>,
    Seq<char>,
> {
    with_pairs(Map::empty(), binding_pairs(set_attr_calls_of(create_body), names))
}

/// The runtime types a module constructor body binds its attributes to.
pub fn module_type_bindings(create_body: &str, static_strings: &TextMap<String>) -> (found: Result<
    TextMap<String>,
    ExtractError,
>)
    requires
        static_strings.wf(),
    ensures
        registration_patterns_compile() ==> found is Ok,
        found matches Ok(map) ==> map.wf() && text_map_view(map) == module_bindings_spec(
            create_body@,
            text_map_view(*static_strings),
        ),
        found matches Err(error) ==> error is InvalidPattern,
{
    match captures_of(RUNTIME_TYPE_BINDING, "") {
        Ok(_) => {},
        Err(error) => return Err(error),
    }
    let calls = match module_set_attr_calls(create_body) {
        Ok(calls) => calls,
        Err(error) => return Err(error),
    };
    let ghost all = pair_views(calls@);
    let ghost names = text_map_view(*static_strings);
    let mut pairs: Vec<(String, String)> = Vec::new();
    let mut i: usize = 0;
    while i < calls.len()
        invariant
            static_strings.wf(),
            names == text_map_view(*static_strings),
            regex_build_error(RUNTIME_TYPE_BINDING@) is None,
            all == pair_views(calls@),
            i <= calls@.len(),
            pair_views(pairs@) == binding_pairs(all.take(i as int), names),
        decreases calls@.len() - i,
    {
        assert(all.take(i + 1).drop_last() =~= all.take(i as int));
        assert(all.take(i + 1).last() == all[i as int]);
        let ghost before = pairs@;
        let arguments = calls[i].1.as_str();
        let type_variant = match first_group_text(RUNTIME_TYPE_BINDING, arguments, 1) {
            Ok(found) => found,
            Err(error) => return Err(error),
        };
        if let Some(type_variant) = type_variant {
            if let Some(name) = static_strings.get(calls[i].0.as_str()) {
                pairs.push((name.clone(), type_variant.to_owned()));
                assert(pair_views(pairs@) =~= pair_views(before).push((name@, type_variant@)));
            }
        }
        i = i + 1;
    }
    assert(all.take(calls@.len() as int) =~= all);
    let mut map: TextMap<String> = TextMap::new();
    assert(text_map_view(map) =~= Map::empty());
    insert_pairs(&mut map, pairs);
    Ok(map)
}

/// A module constructor creating a module named by a `StaticStrings` variant.
pub const MODULE_CREATION: &'static str = r"Module::new\(StaticStrings::(\w+)\)";

/// A module a `create_module` function registers: its Python name, the names of
/// its attributes, and the runtime type each bound attribute stands for.
pub struct RegisteredModule {
    pub name: String,
    pub attributes: TextMap<()>,
    pub bindings: TextMap<String>,
}

impl RegisteredModule {
    /// The module by its name, attribute set and bindings.
    pub open spec fn module_view(&self) -> (Seq<char>, Set<Seq<char>>, Map<Seq<char>, Seq<char>>) {
        (self.name@, set_view(self.attributes), text_map_view(self.bindings))
    }

    pub open spec fn wf(&self) -> bool {
        self.attributes.wf() && self.bindings.wf()
    }
}

/// The modules the given `create_module` bodies register, in order.
pub open spec fn registered_spec(bodies: Seq<Seq<u8>>, source: Seq<char>, names: Map<Seq<char>, Seq<char>>) -> Seq<
    (Seq<char>, Set<Seq<char>>, Map<Seq<char>, Seq<char>>),
>
    decreases bodies.len(),
{
    if bodies.len() == 0 {
        Seq::empty()
    } else {
        let earlier = registered_spec(bodies.drop_last(), source, names);
        let body = decode_utf8(bodies.last());
        match first_group(bodies.last(), regex_captures(MODULE_CREATION@, body), 1) {
            Some(variant) => if names.contains_key(decode_utf8(variant)) {
                earlier.push(
                    (
                        names[decode_utf8(variant)],
                        module_attribute_names(body, source, names),
                        module_bindings_spec(body, names),
                    ),
                )
            } else {
                earlier
            },
            None => earlier,
        }
    }
}

/// Modules by their views.
pub open spec fn module_views(modules: Seq<RegisteredModule>) -> Seq<(Seq<char>, Set<Seq<char>>, Map<Seq<char>, Seq<char>>)> {
    modules.map_values(|module: RegisteredModule| module.module_view())
}

/// The modules the `create_module` functions of a source register.
pub fn registered_modules(source: &str, static_strings: &TextMap<String>) -> (found: Result<
    Vec<RegisteredModule>,
    ExtractError,
>)
    requires
        static_strings.wf(),
    ensures
        registration_patterns_compile() ==> found is Ok,
        found matches Ok(modules) ==> (forall|k: int| 0 <= k < modules@.len() ==> (#[trigger] modules@[k]).wf())
            && module_views(modules@) == registered_spec(
            named_bodies(source@, "create_module"@),
            source@,
            text_map_view(*static_strings),
        ),
        found matches Err(error) ==> error is InvalidPattern,
{
    match captures_of(MODULE_CREATION, "") {
        Ok(_) => {},
        Err(error) => return Err(error),
    }
    let bodies = match function_bodies(source, "create_module") {
        Ok(bodies) => bodies,
        Err(error) => return Err(error),
    };
    let ghost all = bodies@.map_values(|body: String| utf8(body@));
    let ghost names = text_map_view(*static_strings);
    let mut modules: Vec<RegisteredModule> = Vec::new();
    let mut i: usize = 0;
    while i < bodies.len()
        invariant
            static_strings.wf(),
            names == text_map_view(*static_strings),
            regex_build_error(MODULE_CREATION@) is None,
            all == bodies@.map_values(|body: String| utf8(body@)),
            all == named_bodies(source@, "create_module"@),
            i <= bodies@.len(),
            forall|k: int| 0 <= k < modules@.len() ==> (#[trigger] modules@[k]).wf(),
            module_views(modules@) == registered_spec(all.take(i as int), source@, names),
        decreases bodies@.len() - i,
    {
        assert(all.take(i + 1).drop_last() =~= all.take(i as int));
        assert(all.take(i + 1).last() == utf8(bodies@[i as int]@));
        let body = bodies[i].as_str();
        let variant = match first_group_text(MODULE_CREATION, body, 1) {
            Ok(found) => found,
            Err(error) => return Err(error),
        };
        let ghost before = modules@;
        if let Some(variant) = variant {
            if let Some(name) = static_strings.get(variant) {
                let attributes = match registered_module_attributes(body, source, static_strings) {
                    Ok(attributes) => attributes,
                    Err(error) => return Err(error),
                };
                let bindings = match module_type_bindings(body, static_strings) {
                    Ok(bindings) => bindings,
                    Err(error) => return Err(error),
                };
                let module = RegisteredModule { name: name.clone(), attributes, bindings };
                modules.push(module);
                assert(module_views(modules@) =~= module_views(before).push(module.module_view()));
            }
        }
        i = i + 1;
    }
    assert(all.take(bodies@.len() as int) =~= all);
    Ok(modules)
}

} // verus!
