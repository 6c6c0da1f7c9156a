//! The whole static capability graph of a Monty release: its builtin
//! functions, type constructors and exceptions, its modules with their
//! attributes, and the attributes each builtin type path answers to.

use vstd::prelude::*;
use vstd::string::StringSliceAdditionalSpecFns;
use vstd::utf8::*;

use crate::capability_scan::{
    decoded, empty_set, insert_pairs, lemma_push_to_set, module_views, parse_builtin_functions,
    parse_builtin_modules, parse_builtin_type_variants, parse_exception_types,
    parse_static_strings_map, registered_modules, registered_spec, set_view, text_map_view,
    text_views, RegisteredModule, named_bodies,
};
use crate::dispatch::{
    keys_of, lemma_set_keys, set_at, sets_view, sets_wf, empty_sets, extend_set_at, copy_set,
    bodies_after, runtime_type_variants_spec, type_dispatch_spec, pytrait_implementation_bodies,
    runtime_type_variants, type_dispatch_attributes, text_bytes_of, lemma_empty_to_set,
    PYTRAIT_IMPLEMENTATION,
};
use crate::extract::{ExtractError, SourceBundle};
use crate::ordered::TextMap;
use crate::scanner::{
    functions_of, masked_bytes, regex_captures, rust_function_bodies, without_feature_gated_items,
    FEATURE_GATE, FUNCTION_HEADER, pair_bytes,
};
use crate::text::{concat_str, utf8};
use crate::ordered::text_lt;
use crate::capability_scan::{
    builtin_modules_spec, static_names_spec, type_name_pairs, with_pairs,
    insert_texts, list_map_view,
};
use crate::dispatch::{class_entries_of, class_method_attributes, grouped, CLASS_METHOD_ARM};
use crate::scanner::{enum_variants_spec, lowercase_text, regex_build_error, ENUM_HEADER, VARIANT_NAME};

verus! {

broadcast use vstd::utf8::encode_utf8_valid_utf8, vstd::utf8::encode_utf8_decode_utf8;

/// A source with every feature-gated item blanked.
pub open spec fn masked(source: Seq<char>) -> Seq<char> {
    decode_utf8(masked_bytes(utf8(source), regex_captures(FEATURE_GATE@, source)))
}

/// The masked text of every Rust file of a bundle, in path order.
pub open spec fn masked_files(files: TextMap<String>) -> Seq<Seq<char>> {
    files.key_seq().map_values(|path: Seq<char>| masked(files.view_map()[path]@))
}

/// The masked text of every file, in path order.
fn mask_files(files: &TextMap<String>) -> (found: Result<Vec<String>, ExtractError>)
    requires
        files.wf(),
    ensures
        found matches Ok(masked_texts) ==> text_views(masked_texts@) == masked_files(*files),
        found matches Err(error) ==> error is InvalidPattern,
        crate::scanner::regex_build_error(FEATURE_GATE@) is None ==> found is Ok,
{
    let mut out: Vec<String> = Vec::new();
    let mut i: usize = 0;
    while i < files.len()
        invariant
            files.wf(),
            i <= files.key_seq().len(),
            text_views(out@) == masked_files(*files).take(i as int),
        decreases files.key_seq().len() - i,
    {
        let (path, source) = files.entry_at(i);
        let text = match without_feature_gated_items(source.as_str()) {
            Ok(text) => text,
            Err(error) => return Err(error),
        };
        let ghost before = text_views(out@);
        assert(text@ == masked(source@));
        out.push(text);
        assert(text_views(out@) =~= before.push(text@));
        assert(path@ == files.key_seq()[i as int]);
        assert(masked_files(*files)[i as int] == masked(source@));
        assert(masked_files(*files).take(i + 1) =~= masked_files(*files).take(i as int).push(masked(source@)));
        assert(text_views(out@) =~= masked_files(*files).take(i + 1));
        i = i + 1;
    }
    assert(masked_files(*files).take(files.key_seq().len() as int) =~= masked_files(*files));
    Ok(out)
}

/// The masked text of a source.
fn mask(source: &str) -> (found: Result<String, ExtractError>)
    ensures
        found matches Ok(text) ==> text@ == masked(source@),
        found matches Err(error) ==> error is InvalidPattern,
        crate::scanner::regex_build_error(FEATURE_GATE@) is None ==> found is Ok,
{
    without_feature_gated_items(source)
}

/// The modules every file registers, file after file.
pub open spec fn all_registered(files: Seq<Seq<char>>, names: Map<Seq<char>, Seq<char>>) -> Seq<
    (Seq<char>, Set<Seq<char>>, Map<Seq<char>, Seq<char>>),
>
    decreases files.len(),
{
    if files.len() == 0 {
        Seq::empty()
    } else {
        all_registered(files.drop_last(), names) + registered_spec(
            named_bodies(files.last(), "create_module"@),
            files.last(),
            names,
        )
    }
}

/// The attributes registered for each module name, over all its registrations.
pub open spec fn registered_attributes(
    map: Map<Seq<char>, Set<Seq<char>>>,
    modules: Seq<(Seq<char>, Set<Seq<char>>, Map<Seq<char>, Seq<char>>)>,
) -> Map<Seq<char>, Set<Seq<char>>>
    decreases modules.len(),
{
    if modules.len() == 0 {
        map
    } else {
        let earlier = registered_attributes(map, modules.drop_last());
        let (name, attributes, _) = modules.last();
        earlier.insert(name, set_at(earlier, name) + attributes)
    }
}

/// The map a key holds, empty when the key is absent.
pub open spec fn map_at(map: Map<Seq<char>, Map<Seq<char>, Seq<char>>>, key: Seq<char>) -> Map<Seq<char>, Seq<char>> {
    if map.contains_key(key) {
        map[key]
    } else {
        Map::empty()
    }
}

/// The type bindings registered for each module name; a later binding of an
/// attribute replaces an earlier one.
pub open spec fn registered_bindings(
    map: Map<Seq<char>, Map<Seq<char>, Seq<char>>>,
    modules: Seq<(Seq<char>, Set<Seq<char>>, Map<Seq<char>, Seq<char>>)>,
) -> Map<Seq<char>, Map<Seq<char>, Seq<char>>>
    decreases modules.len(),
{
    if modules.len() == 0 {
        map
    } else {
        let earlier = registered_bindings(map, modules.drop_last());
        let (name, _, bindings) = modules.last();
        earlier.insert(name, map_at(earlier, name).union_prefer_right(bindings))
    }
}

/// A map from texts to maps of texts by their views.
pub open spec fn maps_view(map: TextMap<TextMap<String>>) -> Map<Seq<char>, Map<Seq<char>, Seq<char>>> {
    Map::new(|k: Seq<char>| map.view_map().contains_key(k), |k: Seq<char>| text_map_view(map.view_map()[k]))
}

pub open spec fn maps_wf(map: TextMap<TextMap<String>>) -> bool {
    &&& map.wf()
    &&& forall|k: Seq<char>| #[trigger] map.view_map().contains_key(k) ==> map.view_map()[k].wf()
}

/// Store every entry of `items` in `map`, an entry replacing an earlier one of its key.
fn store_all(map: &mut TextMap<String>, items: &TextMap<String>)
    requires
        old(map).wf(),
        items.wf(),
    ensures
        final(map).wf(),
        text_map_view(*final(map)) == text_map_view(*old(map)).union_prefer_right(text_map_view(*items)),
{
    let ghost start = text_map_view(*map);
    let ghost keys = items.key_seq();
    let ghost all = text_map_view(*items);
    let mut i: usize = 0;
    while i < items.len()
        invariant
            map.wf(),
            items.wf(),
            keys == items.key_seq(),
            all == text_map_view(*items),
            i <= keys.len(),
            text_map_view(*map) == start.union_prefer_right(
                all.restrict(keys.take(i as int).to_set()),
            ),
        decreases keys.len() - i,
    {
        let (key, value) = items.entry_at(i);
        let ghost before = text_map_view(*map);
        let stored = value.clone();
        map.insert(key.clone(), stored);
        assert(text_map_view(*map) =~= before.insert(key@, stored@));
        assert(all[key@] == stored@);
        proof {
            assert(keys.take(i + 1) =~= keys.take(i as int).push(keys[i as int]));
            lemma_push_to_set(keys.take(i as int), keys[i as int]);
            assert(all.contains_key(key@));
            assert(text_map_view(*map) =~= start.union_prefer_right(all.restrict(keys.take(i + 1).to_set())));
        }
        i = i + 1;
    }
    proof {
        assert(keys.take(keys.len() as int) =~= keys);
        assert forall|k: Seq<char>| all.contains_key(k) <==> keys.to_set().contains(k) by {}
        assert(all.restrict(keys.to_set()) =~= all);
    }
}

/// Merge every registered module into the attributes and bindings per module name.
fn merge_registered(
    attributes: &mut TextMap<TextMap<()>>,
    bindings: &mut TextMap<TextMap<String>>,
    modules: &Vec<RegisteredModule>,
)
    requires
        sets_wf(*old(attributes)),
        maps_wf(*old(bindings)),
        forall|k: int| 0 <= k < modules@.len() ==> (#[trigger] modules@[k]).wf(),
    ensures
        sets_wf(*final(attributes)),
        maps_wf(*final(bindings)),
        sets_view(*final(attributes)) == registered_attributes(sets_view(*old(attributes)), module_views(modules@)),
        maps_view(*final(bindings)) == registered_bindings(maps_view(*old(bindings)), module_views(modules@)),
{
    let ghost start_attributes = sets_view(*attributes);
    let ghost start_bindings = maps_view(*bindings);
    let ghost views = module_views(modules@);
    let mut i: usize = 0;
    while i < modules.len()
        invariant
            sets_wf(*attributes),
            maps_wf(*bindings),
            forall|k: int| 0 <= k < modules@.len() ==> (#[trigger] modules@[k]).wf(),
            views == module_views(modules@),
            i <= modules@.len(),
            sets_view(*attributes) == registered_attributes(start_attributes, views.take(i as int)),
            maps_view(*bindings) == registered_bindings(start_bindings, views.take(i as int)),
        decreases modules@.len() - i,
    {
        let module = &modules[i];
        assert(module.wf());
        assert(views.take(i + 1).drop_last() =~= views.take(i as int));
        assert(views.take(i + 1).last() == module.module_view());
        let items = keys_of(&module.attributes);
        proof {
            lemma_set_keys(module.attributes);
        }
        extend_set_at(attributes, module.name.clone(), items);
        let ghost before = maps_view(*bindings);
        let mut inner = match bindings.remove(module.name.as_str()) {
            Some(inner) => inner,
            None => {
                let empty: TextMap<String> = TextMap::new();
                assert(text_map_view(empty) =~= Map::empty());
                empty
            },
        };
        assert(text_map_view(inner) == map_at(before, module.name@));
        store_all(&mut inner, &module.bindings);
        let ghost merged = text_map_view(inner);
        bindings.insert(module.name.clone(), inner);
        assert(maps_view(*bindings) =~= before.insert(module.name@, merged));
        i = i + 1;
    }
    assert(views.take(modules@.len() as int) =~= views);
}

/// Each function name's bodies over all files, in file then source order.
pub open spec fn index_functions(
    map: Map<Seq<char>, Seq<Seq<char>>>,
    functions: Seq<(Seq<u8>, Seq<u8>)>,
) -> Map<Seq<char>, Seq<Seq<char>>>
    decreases functions.len(),
{
    if functions.len() == 0 {
        map
    } else {
        let earlier = index_functions(map, functions.drop_last());
        let name = decode_utf8(functions.last().0);
        let listed = if earlier.contains_key(name) {
            earlier[name]
        } else {
            Seq::empty()
        };
        earlier.insert(name, listed.push(decode_utf8(functions.last().1)))
    }
}

/// The function bodies of all files by name.
pub open spec fn function_index_spec(files: Seq<Seq<char>>) -> Map<Seq<char>, Seq<Seq<char>>>
    decreases files.len(),
{
    if files.len() == 0 {
        Map::empty()
    } else {
        index_functions(
            function_index_spec(files.drop_last()),
            functions_of(utf8(files.last()), regex_captures(FUNCTION_HEADER@, files.last())),
        )
    }
}

/// Index the function bodies of all files by name.
fn function_index_of(files: &Vec<String>) -> (found: Result<TextMap<Vec<String>>, ExtractError>)
    ensures
        found matches Ok(index) ==> index.wf() && crate::capability_scan::list_map_view(index)
            == function_index_spec(text_views(files@)),
        found matches Err(error) ==> error is InvalidPattern,
        crate::scanner::regex_build_error(FUNCTION_HEADER@) is None ==> found is Ok,
{
    let ghost views = text_views(files@);
    let mut index: TextMap<Vec<String>> = TextMap::new();
    assert(crate::capability_scan::list_map_view(index) =~= Map::empty());
    let mut i: usize = 0;
    while i < files.len()
        invariant
            index.wf(),
            views == text_views(files@),
            i <= files@.len(),
            crate::capability_scan::list_map_view(index) == function_index_spec(views.take(i as int)),
        decreases files@.len() - i,
    {
        assert(views.take(i + 1).drop_last() =~= views.take(i as int));
        assert(views.take(i + 1).last() == files@[i as int]@);
        let functions = match rust_function_bodies(files[i].as_str()) {
            Ok(functions) => functions,
            Err(error) => return Err(error),
        };
        let ghost all = functions@.map_values(|pair: (String, String)| pair_bytes(pair));
        let ghost start = crate::capability_scan::list_map_view(index);
        let mut j: usize = 0;
        while j < functions.len()
            invariant
                index.wf(),
                all == functions@.map_values(|pair: (String, String)| pair_bytes(pair)),
                j <= functions@.len(),
                crate::capability_scan::list_map_view(index) == index_functions(start, all.take(j as int)),
            decreases functions@.len() - j,
        {
            assert(all.take(j + 1).drop_last() =~= all.take(j as int));
            assert(all.take(j + 1).last() == pair_bytes(functions@[j as int]));
            let ghost before = crate::capability_scan::list_map_view(index);
            let name = functions[j].0.as_str();
            let mut listed = match index.remove(name) {
                Some(listed) => listed,
                None => Vec::new(),
            };
            let ghost old_listed = text_views(listed@);
            assert(old_listed == if before.contains_key(name@) {
                before[name@]
            } else {
                Seq::<Seq<char>>::empty()
            });
            listed.push(functions[j].1.clone());
            assert(text_views(listed@) =~= old_listed.push(functions@[j as int].1@));
            let ghost grown = text_views(listed@);
            let key = functions[j].0.clone();
            index.insert(key, listed);
            assert(crate::capability_scan::list_map_view(index) =~= before.insert(name@, grown));
            assert(decode_utf8(all[j as int].0) == name@);
            assert(decode_utf8(all[j as int].1) == functions@[j as int].1@);
            j = j + 1;
        }
        assert(all.take(functions@.len() as int) =~= all);
        i = i + 1;
    }
    assert(views.take(files@.len() as int) =~= views);
    Ok(index)
}

/// The modules every masked file registers, merged per module name.
fn registrations_of(files: &Vec<String>, static_strings: &TextMap<String>) -> (found: Result<
    (TextMap<TextMap<()>>, TextMap<TextMap<String>>),
    ExtractError,
>)
    requires
        static_strings.wf(),
    ensures
        found matches Ok((attributes, bindings)) ==> {
            &&& sets_wf(attributes)
            &&& maps_wf(bindings)
            &&& sets_view(attributes) == registered_attributes(
                Map::empty(),
                all_registered(text_views(files@), text_map_view(*static_strings)),
            )
            &&& maps_view(bindings) == registered_bindings(
                Map::empty(),
                all_registered(text_views(files@), text_map_view(*static_strings)),
            )
        },
        found matches Err(error) ==> error is InvalidPattern,
        crate::capability_scan::registration_patterns_compile() ==> found is Ok,
{
    let ghost views = text_views(files@);
    let ghost names = text_map_view(*static_strings);
    let mut attributes = empty_sets();
    let mut bindings: TextMap<TextMap<String>> = TextMap::new();
    assert(maps_view(bindings) =~= Map::empty());
    let mut i: usize = 0;
    while i < files.len()
        invariant
            static_strings.wf(),
            names == text_map_view(*static_strings),
            views == text_views(files@),
            sets_wf(attributes),
            maps_wf(bindings),
            i <= files@.len(),
            sets_view(attributes) == registered_attributes(Map::empty(), all_registered(views.take(i as int), names)),
            maps_view(bindings) == registered_bindings(Map::empty(), all_registered(views.take(i as int), names)),
        decreases files@.len() - i,
    {
        assert(views.take(i + 1).drop_last() =~= views.take(i as int));
        assert(views.take(i + 1).last() == files@[i as int]@);
        let modules = match registered_modules(files[i].as_str(), static_strings) {
            Ok(modules) => modules,
            Err(error) => return Err(error),
        };
        proof {
            lemma_registered_concat(
                Map::empty(),
                Map::empty(),
                all_registered(views.take(i as int), names),
                module_views(modules@),
            );
        }
        merge_registered(&mut attributes, &mut bindings, &modules);
        i = i + 1;
    }
    assert(views.take(files@.len() as int) =~= views);
    Ok((attributes, bindings))
}

/// Merging two runs of registrations is merging the first, then the second.
pub proof fn lemma_registered_concat(
    attributes: Map<Seq<char>, Set<Seq<char>>>,
    bindings: Map<Seq<char>, Map<Seq<char>, Seq<char>>>,
    first: Seq<(Seq<char>, Set<Seq<char>>, Map<Seq<char>, Seq<char>>)>,
    second: Seq<(Seq<char>, Set<Seq<char>>, Map<Seq<char>, Seq<char>>)>,
)
    ensures
        registered_attributes(attributes, first + second) == registered_attributes(
            registered_attributes(attributes, first),
            second,
        ),
        registered_bindings(bindings, first + second) == registered_bindings(
            registered_bindings(bindings, first),
            second,
        ),
    decreases second.len(),
{
    if second.len() == 0 {
        assert(first + second =~= first);
    } else {
        assert((first + second).drop_last() =~= first + second.drop_last());
        lemma_registered_concat(attributes, bindings, first, second.drop_last());
    }
}

/// The paths of the attributes a module binds to runtime types, added to the
/// paths of each type: `module.attribute` for every binding.
pub open spec fn add_module_paths(
    paths: Map<Seq<char>, Set<Seq<char>>>,
    module: Seq<char>,
    bindings: Map<Seq<char>, Seq<char>>,
) -> Map<Seq<char>, Set<Seq<char>>> {
    Map::new(
        |v: Seq<char>| paths.contains_key(v) || binds_variant(bindings, v),
        |v: Seq<char>| set_at(paths, v) + Set::new(|p: Seq<char>| binds_path(bindings, module, v, p)),
    )
}

/// Some attribute is bound to `variant`.
pub open spec fn binds_variant(bindings: Map<Seq<char>, Seq<char>>, variant: Seq<char>) -> bool {
    exists|e: Seq<char>| #[trigger] bindings.contains_key(e) && bindings[e] == variant
}

/// `path` is `module.e` for an attribute `e` bound to `variant`.
pub open spec fn binds_path(bindings: Map<Seq<char>, Seq<char>>, module: Seq<char>, variant: Seq<char>, path: Seq<char>) -> bool {
    exists|e: Seq<char>| #[trigger] bindings.contains_key(e) && bindings[e] == variant && path == module + "."@ + e
}

/// Whether `module` binds its attribute `export` to the type `variant`.
pub open spec fn bound_to(
    modules: Set<Seq<char>>,
    bindings: Map<Seq<char>, Map<Seq<char>, Seq<char>>>,
    module: Seq<char>,
    export: Seq<char>,
    variant: Seq<char>,
) -> bool {
    modules.contains(module) && bindings.contains_key(module) && bindings[module].contains_key(export)
        && bindings[module][export] == variant
}

/// The import paths of each builtin type: its constructor name, and
/// `module.attribute` for every attribute of a builtin module bound to it.
pub open spec fn type_paths_spec(
    constructors: Map<Seq<char>, Seq<char>>,
    modules: Set<Seq<char>>,
    bindings: Map<Seq<char>, Map<Seq<char>, Seq<char>>>,
) -> Map<Seq<char>, Set<Seq<char>>> {
    Map::new(
        |v: Seq<char>|
            constructors.contains_key(v) || exists|m: Seq<char>, e: Seq<char>| #[trigger] bound_to(modules, bindings, m, e, v),
        |v: Seq<char>|
            Set::new(
                |p: Seq<char>|
                    (constructors.contains_key(v) && p == constructors[v]) || exists|m: Seq<char>, e: Seq<char>|
                        #[trigger] bound_to(modules, bindings, m, e, v) && p == m + "."@ + e,
            ),
    )
}

/// One text as a list.
fn single(text: String) -> (list: Vec<String>)
    ensures
        text_views(list@).to_set() == Set::<Seq<char>>::empty().insert(text@),
{
    let mut list: Vec<String> = Vec::new();
    list.push(text);
    proof {
        assert(text_views(list@) =~= Seq::<Seq<char>>::empty().push(text@));
        assert(Seq::<Seq<char>>::empty().to_set() =~= Set::<Seq<char>>::empty());
        lemma_push_to_set(Seq::<Seq<char>>::empty(), text@);
    }
    list
}

/// Add the paths one module's bindings give.
fn add_paths_of_module(paths: &mut TextMap<TextMap<()>>, module: &str, bindings: &TextMap<String>)
    requires
        sets_wf(*old(paths)),
        bindings.wf(),
    ensures
        sets_wf(*final(paths)),
        sets_view(*final(paths)) == add_module_paths(sets_view(*old(paths)), module@, text_map_view(*bindings)),
{
    let ghost start = sets_view(*paths);
    let ghost keys = bindings.key_seq();
    let ghost all = text_map_view(*bindings);
    let mut j: usize = 0;
    proof {
        let none = all.restrict(keys.take(0).to_set());
        assert(keys.take(0).to_set() =~= Set::<Seq<char>>::empty());
        assert(none =~= Map::<Seq<char>, Seq<char>>::empty());
        assert forall|v: Seq<char>| !#[trigger] binds_variant(none, v) by {}
        assert forall|v: Seq<char>| #[trigger] start.contains_key(v) implies set_at(start, v) + Set::new(
            |p: Seq<char>| binds_path(none, module@, v, p),
        ) =~= start[v] by {
            assert forall|p: Seq<char>| !#[trigger] binds_path(none, module@, v, p) by {}
        }
        assert(sets_view(*paths) =~= add_module_paths(start, module@, none));
    }
    while j < bindings.len()
        invariant
            sets_wf(*paths),
            bindings.wf(),
            keys == bindings.key_seq(),
            all == text_map_view(*bindings),
            j <= keys.len(),
            sets_view(*paths) == add_module_paths(start, module@, all.restrict(keys.take(j as int).to_set())),
        decreases keys.len() - j,
    {
        let (export, variant) = bindings.entry_at(j);
        let ghost before = sets_view(*paths);
        let ghost done = all.restrict(keys.take(j as int).to_set());
        let ghost next = all.restrict(keys.take(j + 1).to_set());
        let dotted = concat_str(module, ".");
        let path = concat_str(dotted.as_str(), export.as_str());
        proof {
            reveal_strlit(".");
        }
        let ghost path_view = path@;
        extend_set_at(paths, variant.clone(), single(path));
        proof {
            assert(keys.take(j + 1) =~= keys.take(j as int).push(keys[j as int]));
            lemma_push_to_set(keys.take(j as int), keys[j as int]);
            assert(all[export@] == variant@);
            assert(path_view == module@ + "."@ + export@);
            assert forall|v: Seq<char>| #[trigger] binds_variant(next, v) <==> (binds_variant(done, v) || v == variant@) by {
                if binds_variant(next, v) {
                    let e = choose|e: Seq<char>| #[trigger] next.contains_key(e) && next[e] == v;
                    if e != export@ {
                        assert(done.contains_key(e));
                    }
                }
                if v == variant@ {
                    assert(next.contains_key(export@));
                }
                if binds_variant(done, v) {
                    let e = choose|e: Seq<char>| #[trigger] done.contains_key(e) && done[e] == v;
                    assert(next.contains_key(e));
                }
            }
            assert forall|v: Seq<char>, p: Seq<char>| #[trigger] binds_path(next, module@, v, p) <==> (binds_path(done, module@, v, p) || (v
                == variant@ && p == path_view)) by {
                if binds_path(next, module@, v, p) {
                    let e = choose|e: Seq<char>| #[trigger] next.contains_key(e) && next[e] == v && p == module@ + "."@ + e;
                    if e != export@ {
                        assert(done.contains_key(e));
                    }
                }
                if v == variant@ && p == path_view {
                    assert(next.contains_key(export@));
                }
                if binds_path(done, module@, v, p) {
                    let e = choose|e: Seq<char>| #[trigger] done.contains_key(e) && done[e] == v && p == module@ + "."@ + e;
                    assert(next.contains_key(e));
                }
            }
            let target = add_module_paths(start, module@, next);
            assert forall|v: Seq<char>| #[trigger] sets_view(*paths).contains_key(v) <==> target.contains_key(v) by {}
            assert forall|v: Seq<char>| #[trigger] sets_view(*paths).contains_key(v) implies sets_view(*paths)[v]
                =~= target[v] by {}
            assert(sets_view(*paths) =~= target);
        }
        j = j + 1;
    }
    proof {
        assert(keys.take(keys.len() as int) =~= keys);
        assert forall|k: Seq<char>| all.contains_key(k) <==> keys.to_set().contains(k) by {}
        assert(all.restrict(keys.to_set()) =~= all);
    }
}

/// Adding one more module to the set whose bindings give paths.
pub proof fn lemma_type_paths_step(
    constructors: Map<Seq<char>, Seq<char>>,
    modules: Set<Seq<char>>,
    bindings: Map<Seq<char>, Map<Seq<char>, Seq<char>>>,
    module: Seq<char>,
)
    ensures
        type_paths_spec(constructors, modules.insert(module), bindings) == if bindings.contains_key(module) {
            add_module_paths(type_paths_spec(constructors, modules, bindings), module, bindings[module])
        } else {
            type_paths_spec(constructors, modules, bindings)
        },
{
    let before = type_paths_spec(constructors, modules, bindings);
    let after = type_paths_spec(constructors, modules.insert(module), bindings);
    let grown = modules.insert(module);
    if bindings.contains_key(module) {
        let target = add_module_paths(before, module, bindings[module]);
        assert forall|v: Seq<char>| after.contains_key(v) <==> target.contains_key(v) by {
            if after.contains_key(v) && !constructors.contains_key(v) {
                let (m, e) = choose|m: Seq<char>, e: Seq<char>| #[trigger] bound_to(grown, bindings, m, e, v);
                if m == module {
                    assert(bindings[module].contains_key(e));
                    assert(binds_variant(bindings[module], v));
                } else {
                    assert(bound_to(modules, bindings, m, e, v));
                }
            }
            if target.contains_key(v) && !constructors.contains_key(v) {
                if binds_variant(bindings[module], v) {
                    let e = choose|e: Seq<char>| #[trigger] bindings[module].contains_key(e) && bindings[module][e] == v;
                    assert(bound_to(grown, bindings, module, e, v));
                } else {
                    let (m, e) = choose|m: Seq<char>, e: Seq<char>| #[trigger] bound_to(modules, bindings, m, e, v);
                    assert(bound_to(grown, bindings, m, e, v));
                }
            }
        }
        assert forall|v: Seq<char>| #[trigger] after.contains_key(v) implies after[v] =~= target[v] by {
            assert forall|p: Seq<char>| after[v].contains(p) <==> target[v].contains(p) by {
                if after[v].contains(p) && !(constructors.contains_key(v) && p == constructors[v]) {
                    let (m, e) = choose|m: Seq<char>, e: Seq<char>|
                        #[trigger] bound_to(grown, bindings, m, e, v) && p == m + "."@ + e;
                    if m == module {
                        assert(bindings[module].contains_key(e));
                        assert(binds_path(bindings[module], module, v, p));
                    } else {
                        assert(bound_to(modules, bindings, m, e, v));
                        assert(before.contains_key(v));
                        assert(before[v].contains(p));
                    }
                }
                if target[v].contains(p) {
                    if binds_path(bindings[module], module, v, p) {
                        let e = choose|e: Seq<char>|
                            #[trigger] bindings[module].contains_key(e) && bindings[module][e] == v && p == module + "."@ + e;
                        assert(bound_to(grown, bindings, module, e, v));
                    } else if before.contains_key(v) && before[v].contains(p) && !(constructors.contains_key(v) && p
                        == constructors[v]) {
                        let (m, e) = choose|m: Seq<char>, e: Seq<char>|
                            #[trigger] bound_to(modules, bindings, m, e, v) && p == m + "."@ + e;
                        assert(bound_to(grown, bindings, m, e, v));
                    }
                }
            }
        }
        assert(after =~= target);
    } else {
        assert forall|v: Seq<char>| after.contains_key(v) <==> before.contains_key(v) by {
            if after.contains_key(v) && !constructors.contains_key(v) {
                let (m, e) = choose|m: Seq<char>, e: Seq<char>| #[trigger] bound_to(grown, bindings, m, e, v);
                assert(bound_to(modules, bindings, m, e, v));
            }
            if before.contains_key(v) && !constructors.contains_key(v) {
                let (m, e) = choose|m: Seq<char>, e: Seq<char>| #[trigger] bound_to(modules, bindings, m, e, v);
                assert(bound_to(grown, bindings, m, e, v));
            }
        }
        assert forall|v: Seq<char>| #[trigger] after.contains_key(v) implies after[v] =~= before[v] by {
            assert forall|p: Seq<char>| after[v].contains(p) <==> before[v].contains(p) by {
                if after[v].contains(p) && !(constructors.contains_key(v) && p == constructors[v]) {
                    let (m, e) = choose|m: Seq<char>, e: Seq<char>|
                        #[trigger] bound_to(grown, bindings, m, e, v) && p == m + "."@ + e;
                    assert(bound_to(modules, bindings, m, e, v));
                }
                if before[v].contains(p) && !(constructors.contains_key(v) && p == constructors[v]) {
                    let (m, e) = choose|m: Seq<char>, e: Seq<char>|
                        #[trigger] bound_to(modules, bindings, m, e, v) && p == m + "."@ + e;
                    assert(bound_to(grown, bindings, m, e, v));
                }
            }
        }
        assert(after =~= before);
    }
}

/// The import paths of each builtin type.
fn type_paths_of(
    constructors: &TextMap<String>,
    modules: &TextMap<()>,
    bindings: &TextMap<TextMap<String>>,
) -> (paths: TextMap<TextMap<()>>)
    requires
        constructors.wf(),
        modules.wf(),
        maps_wf(*bindings),
    ensures
        sets_wf(paths),
        sets_view(paths) == type_paths_spec(text_map_view(*constructors), set_view(*modules), maps_view(*bindings)),
{
    let ghost ctors = text_map_view(*constructors);
    let ghost ckeys = constructors.key_seq();
    let mut paths = empty_sets();
    let mut i: usize = 0;
    while i < constructors.len()
        invariant
            sets_wf(paths),
            constructors.wf(),
            ctors == text_map_view(*constructors),
            ckeys == constructors.key_seq(),
            i <= ckeys.len(),
            sets_view(paths) == Map::new(
                |v: Seq<char>| ckeys.take(i as int).contains(v),
                |v: Seq<char>| Set::<Seq<char>>::empty().insert(ctors[v]),
            ),
        decreases ckeys.len() - i,
    {
        let (variant, name) = constructors.entry_at(i);
        let ghost before = sets_view(paths);
        extend_set_at(&mut paths, variant.clone(), single(name.clone()));
        proof {
            assert(ctors[variant@] == name@);
            assert(ckeys.take(i + 1) =~= ckeys.take(i as int).push(ckeys[i as int]));
            lemma_push_to_set(ckeys.take(i as int), ckeys[i as int]);
            assert forall|v: Seq<char>| ckeys.take(i + 1).contains(v) <==> (ckeys.take(i as int).contains(v) || v == variant@) by {
                assert(ckeys.take(i + 1).to_set().contains(v) == ckeys.take(i + 1).contains(v));
                assert(ckeys.take(i as int).to_set().contains(v) == ckeys.take(i as int).contains(v));
            }
            assert(set_at(before, variant@) + Set::<Seq<char>>::empty().insert(name@) =~= Set::<Seq<char>>::empty().insert(name@));
        }
        assert(sets_view(paths) =~= Map::new(
            |v: Seq<char>| ckeys.take(i + 1).contains(v),
            |v: Seq<char>| Set::<Seq<char>>::empty().insert(ctors[v]),
        ));
        i = i + 1;
    }
    let ghost bound = maps_view(*bindings);
    proof {
        assert(ckeys.take(ckeys.len() as int) =~= ckeys);
        let empty_modules = Set::<Seq<char>>::empty();
        let target = type_paths_spec(ctors, empty_modules, bound);
        assert forall|v: Seq<char>| target.contains_key(v) <==> ckeys.contains(v) by {
            if target.contains_key(v) && !ctors.contains_key(v) {
                let (m, e) = choose|m: Seq<char>, e: Seq<char>| #[trigger] bound_to(empty_modules, bound, m, e, v);
            }
        }
        assert forall|v: Seq<char>| #[trigger] target.contains_key(v) implies target[v] =~= Set::<Seq<char>>::empty().insert(ctors[v]) by {
            assert forall|p: Seq<char>| target[v].contains(p) <==> p == ctors[v] by {
                if target[v].contains(p) && !(ctors.contains_key(v) && p == ctors[v]) {
                    let (m, e) = choose|m: Seq<char>, e: Seq<char>|
                        #[trigger] bound_to(empty_modules, bound, m, e, v) && p == m + "."@ + e;
                }
            }
        }
        assert(sets_view(paths) =~= target);
    }
    let names = keys_of(modules);
    let ghost mkeys = text_views(names@);
    assert(mkeys.take(0).to_set() =~= Set::<Seq<char>>::empty());
    let mut k: usize = 0;
    while k < names.len()
        invariant
            sets_wf(paths),
            maps_wf(*bindings),
            bound == maps_view(*bindings),
            mkeys == text_views(names@),
            k <= names@.len(),
            sets_view(paths) == type_paths_spec(ctors, mkeys.take(k as int).to_set(), bound),
        decreases names@.len() - k,
    {
        let module = names[k].as_str();
        proof {
            assert(mkeys.take(k + 1) =~= mkeys.take(k as int).push(mkeys[k as int]));
            lemma_push_to_set(mkeys.take(k as int), mkeys[k as int]);
            lemma_type_paths_step(ctors, mkeys.take(k as int).to_set(), bound, module@);
        }
        match bindings.get(module) {
            Some(bs) => {
                assert(bindings.view_map().contains_key(module@));
                add_paths_of_module(&mut paths, module, bs);
            },
            None => {},
        }
        k = k + 1;
    }
    proof {
        assert(mkeys.take(names@.len() as int) =~= mkeys);
        lemma_set_keys(*modules);
    }
    paths
}

/// Each `PyTrait` implementation body of every file, with the file it is in.
pub open spec fn dispatch_units(files: Seq<Seq<char>>) -> Seq<(Seq<char>, Seq<char>)>
    decreases files.len(),
{
    if files.len() == 0 {
        Seq::empty()
    } else {
        dispatch_units(files.drop_last()) + bodies_after(
            utf8(files.last()),
            regex_captures(PYTRAIT_IMPLEMENTATION@, files.last()),
        ).map_values(|body: Seq<u8>| (decode_utf8(body), files.last()))
    }
}

/// Two maps of sets merged key by key.
pub open spec fn merge_sets(
    map: Map<Seq<char>, Set<Seq<char>>>,
    more: Map<Seq<char>, Set<Seq<char>>>,
) -> Map<Seq<char>, Set<Seq<char>>> {
    Map::new(
        |v: Seq<char>| map.contains_key(v) || more.contains_key(v),
        |v: Seq<char>| set_at(map, v) + set_at(more, v),
    )
}

/// The runtime types an implementation reports, other than the type of types.
pub open spec fn unit_variants(implementation: Seq<char>, source: Seq<char>) -> Set<Seq<char>> {
    runtime_type_variants_spec(implementation, source).remove("Type"@)
}

/// The attributes of each runtime type after reading the dispatch of every
/// implementation that reports at least one type.
pub open spec fn type_variant_attributes(
    map: Map<Seq<char>, Set<Seq<char>>>,
    units: Seq<(Seq<char>, Seq<char>)>,
    index: Map<Seq<char>, Seq<Seq<char>>>,
    names: Map<Seq<char>, Seq<char>>,
) -> Map<Seq<char>, Set<Seq<char>>>
    decreases units.len(),
{
    if units.len() == 0 {
        map
    } else {
        let earlier = type_variant_attributes(map, units.drop_last(), index, names);
        let (implementation, source) = units.last();
        let variants = unit_variants(implementation, source);
        if variants == Set::<Seq<char>>::empty() {
            earlier
        } else {
            merge_sets(earlier, type_dispatch_spec(implementation, index, names, variants))
        }
    }
}

/// Merge a map of sets into another, key by key.
fn merge_sets_into(map: &mut TextMap<TextMap<()>>, more: &TextMap<TextMap<()>>)
    requires
        sets_wf(*old(map)),
        sets_wf(*more),
    ensures
        sets_wf(*final(map)),
        sets_view(*final(map)) == merge_sets(sets_view(*old(map)), sets_view(*more)),
{
    let ghost start = sets_view(*map);
    let ghost all = sets_view(*more);
    let ghost keys = more.key_seq();
    proof {
        let none = all.restrict(keys.take(0).to_set());
        assert(keys.take(0).to_set() =~= Set::<Seq<char>>::empty());
        assert(none =~= Map::<Seq<char>, Set<Seq<char>>>::empty());
        assert forall|v: Seq<char>| #[trigger] start.contains_key(v) implies set_at(start, v) + set_at(none, v) =~= start[v] by {}
        assert(start =~= merge_sets(start, none));
    }
    let mut j: usize = 0;
    while j < more.len()
        invariant
            sets_wf(*map),
            sets_wf(*more),
            all == sets_view(*more),
            keys == more.key_seq(),
            j <= keys.len(),
            sets_view(*map) == merge_sets(start, all.restrict(keys.take(j as int).to_set())),
        decreases keys.len() - j,
    {
        let (key, inner) = more.entry_at(j);
        assert(more.view_map().contains_key(key@));
        let items = keys_of(inner);
        proof {
            lemma_set_keys(*inner);
        }
        let ghost before = sets_view(*map);
        let ghost done = all.restrict(keys.take(j as int).to_set());
        let ghost next = all.restrict(keys.take(j + 1).to_set());
        extend_set_at(map, key.clone(), items);
        proof {
            assert(keys.take(j + 1) =~= keys.take(j as int).push(keys[j as int]));
            lemma_push_to_set(keys.take(j as int), keys[j as int]);
            assert(all[key@] == set_view(*inner));
            assert forall|v: Seq<char>| #[trigger] next.contains_key(v) <==> (done.contains_key(v) || v == key@) by {}
            assert(set_at(next, key@) == set_at(done, key@) + set_view(*inner));
            let target = merge_sets(start, next);
            assert forall|v: Seq<char>| #[trigger] sets_view(*map).contains_key(v) implies sets_view(*map)[v] =~= target[v] by {
                if v == key@ {
                    assert(set_at(done, key@) == set_at(done, key@));
                }
            }
            assert(sets_view(*map) =~= target);
        }
        j = j + 1;
    }
    proof {
        assert(keys.take(keys.len() as int) =~= keys);
        assert forall|k: Seq<char>| all.contains_key(k) <==> keys.to_set().contains(k) by {}
        assert(all.restrict(keys.to_set()) =~= all);
    }
}

/// The attributes of each runtime type from every implementation of every file.
fn type_variant_attributes_of(
    start: TextMap<TextMap<()>>,
    files: &Vec<String>,
    function_index: &TextMap<Vec<String>>,
    static_strings: &TextMap<String>,
) -> (found: Result<TextMap<TextMap<()>>, ExtractError>)
    requires
        sets_wf(start),
        function_index.wf(),
        static_strings.wf(),
    ensures
        found matches Ok(map) ==> sets_wf(map) && sets_view(map) == type_variant_attributes(
            sets_view(start),
            dispatch_units(text_views(files@)),
            crate::capability_scan::list_map_view(*function_index),
            text_map_view(*static_strings),
        ),
        found matches Err(error) ==> error is InvalidPattern,
        (crate::dispatch::runtime_patterns_compile() && crate::dispatch::type_dispatch_patterns_compile()
            && crate::scanner::regex_build_error(PYTRAIT_IMPLEMENTATION@) is None) ==> found is Ok,
{
    let ghost views = text_views(files@);
    let ghost index = crate::capability_scan::list_map_view(*function_index);
    let ghost names = text_map_view(*static_strings);
    let ghost initial = sets_view(start);
    let mut map = start;
    let mut i: usize = 0;
    while i < files.len()
        invariant
            sets_wf(map),
            function_index.wf(),
            static_strings.wf(),
            views == text_views(files@),
            index == crate::capability_scan::list_map_view(*function_index),
            names == text_map_view(*static_strings),
            i <= files@.len(),
            sets_view(map) == type_variant_attributes(initial, dispatch_units(views.take(i as int)), index, names),
        decreases files@.len() - i,
    {
        let source = files[i].as_str();
        assert(views.take(i + 1).drop_last() =~= views.take(i as int));
        assert(views.take(i + 1).last() == source@);
        let bodies = match pytrait_implementation_bodies(source) {
            Ok(bodies) => bodies,
            Err(error) => return Err(error),
        };
        let ghost units = bodies_after(utf8(source@), regex_captures(PYTRAIT_IMPLEMENTATION@, source@)).map_values(
            |body: Seq<u8>| (decode_utf8(body), source@),
        );
        let ghost before = dispatch_units(views.take(i as int));
        assert(dispatch_units(views.take(i + 1)) == before + units);
        let mut j: usize = 0;
        while j < bodies.len()
            invariant
                sets_wf(map),
                function_index.wf(),
                static_strings.wf(),
                index == crate::capability_scan::list_map_view(*function_index),
                names == text_map_view(*static_strings),
                text_bytes_of(bodies@) == bodies_after(utf8(source@), regex_captures(PYTRAIT_IMPLEMENTATION@, source@)),
                units == bodies_after(utf8(source@), regex_captures(PYTRAIT_IMPLEMENTATION@, source@)).map_values(
                    |body: Seq<u8>| (decode_utf8(body), source@),
                ),
                j <= bodies@.len(),
                sets_view(map) == type_variant_attributes(initial, before + units.take(j as int), index, names),
            decreases bodies@.len() - j,
        {
            let implementation = bodies[j].as_str();
            assert(units[j as int] == (implementation@, source@));
            assert((before + units.take(j + 1)).drop_last() =~= before + units.take(j as int));
            assert((before + units.take(j + 1)).last() == (implementation@, source@));
            let mut variants = match runtime_type_variants(implementation, source) {
                Ok(variants) => variants,
                Err(error) => return Err(error),
            };
            let ghost reported = set_view(variants);
            variants.remove("Type");
            proof {
                reveal_strlit("Type");
                assert(set_view(variants) =~= reported.remove("Type"@));
                lemma_set_keys(variants);
                lemma_empty_to_set(variants.key_seq());
            }
            if variants.len() > 0 {
                let found = match type_dispatch_attributes(implementation, function_index, static_strings, &variants) {
                    Ok(found) => found,
                    Err(error) => return Err(error),
                };
                merge_sets_into(&mut map, &found);
            }
            j = j + 1;
        }
        assert(units.take(bodies@.len() as int) =~= units);
        i = i + 1;
    }
    assert(views.take(files@.len() as int) =~= views);
    Ok(map)
}

/// `variant` is a type whose import paths include `path`.
pub open spec fn owns_path(paths: Map<Seq<char>, Set<Seq<char>>>, variant: Seq<char>, path: Seq<char>) -> bool {
    paths.contains_key(variant) && paths[variant].contains(path)
}

/// `variant` owns `path`, and no type after it in text order does.
pub open spec fn last_owner(paths: Map<Seq<char>, Set<Seq<char>>>, variant: Seq<char>, path: Seq<char>) -> bool {
    &&& owns_path(paths, variant, path)
    &&& forall|other: Seq<char>| #[trigger] owns_path(paths, other, path) ==> !text_lt(variant, other)
}

/// The attributes of each import path: those of the type owning the path, or,
/// when several types share it, of the last of them in text order.
pub open spec fn type_attributes_hold(
    result: Map<Seq<char>, Set<Seq<char>>>,
    paths: Map<Seq<char>, Set<Seq<char>>>,
    attributes: Map<Seq<char>, Set<Seq<char>>>,
) -> bool {
    &&& forall|p: Seq<char>| #[trigger] result.contains_key(p) <==> exists|v: Seq<char>| #[trigger] owns_path(paths, v, p)
    &&& forall|p: Seq<char>|
        #[trigger] result.contains_key(p) ==> exists|v: Seq<char>| #[trigger] last_owner(paths, v, p) && result[p] == set_at(attributes, v)
}

/// The owners of a path among the first keys, and whether `v` is the last of them.
pub open spec fn last_owner_among(
    paths: Map<Seq<char>, Set<Seq<char>>>,
    keys: Seq<Seq<char>>,
    variant: Seq<char>,
    path: Seq<char>,
) -> bool {
    &&& owns_path(paths, variant, path)
    &&& keys.contains(variant)
    &&& forall|other: Seq<char>| #[trigger] owns_path(paths, other, path) && keys.contains(other) ==> !text_lt(variant, other)
}

/// The attributes each import path answers to.
fn type_attributes_of(paths: &TextMap<TextMap<()>>, attributes: &TextMap<TextMap<()>>) -> (found: TextMap<TextMap<()>>)
    requires
        sets_wf(*paths),
        sets_wf(*attributes),
    ensures
        sets_wf(found),
        type_attributes_hold(sets_view(found), sets_view(*paths), sets_view(*attributes)),
{
    let ghost tp = sets_view(*paths);
    let ghost tva = sets_view(*attributes);
    let ghost keys = paths.key_seq();
    proof {
        paths.lemma_sorted();
    }
    let mut found = empty_sets();
    let mut i: usize = 0;
    while i < paths.len()
        invariant
            sets_wf(found),
            sets_wf(*paths),
            sets_wf(*attributes),
            tp == sets_view(*paths),
            tva == sets_view(*attributes),
            keys == paths.key_seq(),
            crate::ordered::strictly_sorted(keys),
            i <= keys.len(),
            forall|p: Seq<char>|
                #[trigger] sets_view(found).contains_key(p) <==> exists|v: Seq<char>|
                    #[trigger] owns_path(tp, v, p) && keys.take(i as int).contains(v),
            forall|p: Seq<char>|
                #[trigger] sets_view(found).contains_key(p) ==> exists|v: Seq<char>|
                    #[trigger] last_owner_among(tp, keys.take(i as int), v, p) && sets_view(found)[p] == set_at(tva, v),
        decreases keys.len() - i,
    {
        let (variant, owned) = paths.entry_at(i);
        assert(paths.view_map().contains_key(variant@));
        assert(tp[variant@] == set_view(*owned));
        let owned_keys = keys_of(owned);
        let ghost before_keys = keys.take(i as int);
        let ghost after_keys = keys.take(i + 1);
        proof {
            lemma_set_keys(*owned);
            assert(after_keys =~= before_keys.push(keys[i as int]));
            lemma_push_to_set(before_keys, keys[i as int]);
            assert forall|v: Seq<char>| after_keys.contains(v) <==> (before_keys.contains(v) || v == variant@) by {
                assert(after_keys.to_set().contains(v) == after_keys.contains(v));
                assert(before_keys.to_set().contains(v) == before_keys.contains(v));
            }
            assert forall|v: Seq<char>| before_keys.contains(v) implies text_lt(v, variant@) by {
                let j = choose|j: int| 0 <= j < before_keys.len() && before_keys[j] == v;
                assert(keys[j] == v);
            }
        }
        let ghost listed = text_views(owned_keys@);
        let ghost start = sets_view(found);
        let mut j: usize = 0;
        while j < owned_keys.len()
            invariant
                sets_wf(found),
                sets_wf(*attributes),
                tp == sets_view(*paths),
                tva == sets_view(*attributes),
                listed == text_views(owned_keys@),
                listed.to_set() == tp[variant@],
                tp.contains_key(variant@),
                after_keys.contains(variant@),
                forall|v: Seq<char>| after_keys.contains(v) <==> (before_keys.contains(v) || v == variant@),
                forall|v: Seq<char>| before_keys.contains(v) ==> text_lt(v, variant@),
                j <= owned_keys@.len(),
                forall|p: Seq<char>|
                    #[trigger] sets_view(found).contains_key(p) <==> (start.contains_key(p) || listed.take(j as int).contains(p)),
                forall|p: Seq<char>|
                    #[trigger] listed.take(j as int).contains(p) ==> sets_view(found).contains_key(p) && sets_view(found)[p]
                        == set_at(tva, variant@),
                forall|p: Seq<char>|
                    #[trigger] sets_view(found).contains_key(p) && !listed.take(j as int).contains(p) ==> start.contains_key(p)
                        && sets_view(found)[p] == start[p],
                forall|p: Seq<char>| #[trigger] start.contains_key(p) <==> exists|v: Seq<char>|
                    #[trigger] owns_path(tp, v, p) && before_keys.contains(v),
                forall|p: Seq<char>|
                    #[trigger] start.contains_key(p) ==> exists|v: Seq<char>|
                        #[trigger] last_owner_among(tp, before_keys, v, p) && start[p] == set_at(tva, v),
            decreases owned_keys@.len() - j,
        {
            let path = owned_keys[j].clone();
            assert(path@ == listed[j as int]);
            let copied = match attributes.get(variant.as_str()) {
                Some(inner) => {
                    assert(attributes.view_map().contains_key(variant@));
                    copy_set(inner)
                },
                None => empty_set(),
            };
            assert(set_view(copied) == set_at(tva, variant@));
            let ghost before = sets_view(found);
            let ghost made = set_view(copied);
            found.insert(path, copied);
            proof {
                assert(sets_view(found) =~= before.insert(listed[j as int], made));
                assert(listed.take(j + 1) =~= listed.take(j as int).push(listed[j as int]));
                assert forall|p: Seq<char>| listed.take(j + 1).contains(p) <==> (listed.take(j as int).contains(p) || p == listed[j as int]) by {
                    lemma_push_to_set(listed.take(j as int), listed[j as int]);
                    assert(listed.take(j + 1).to_set().contains(p) == listed.take(j + 1).contains(p));
                    assert(listed.take(j as int).to_set().contains(p) == listed.take(j as int).contains(p));
                }
                assert forall|p: Seq<char>|
                    #[trigger] sets_view(found).contains_key(p) <==> (start.contains_key(p) || listed.take(j + 1).contains(p)) by {
                    assert(sets_view(found).contains_key(p) == (before.contains_key(p) || p == listed[j as int]));
                    assert(before.contains_key(p) <==> (start.contains_key(p) || listed.take(j as int).contains(p)));
                }
                assert forall|p: Seq<char>|
                    #[trigger] listed.take(j + 1).contains(p) implies sets_view(found).contains_key(p) && sets_view(found)[p]
                        == set_at(tva, variant@) by {
                    if p != listed[j as int] {
                        assert(listed.take(j as int).contains(p));
                        assert(before.contains_key(p) && before[p] == set_at(tva, variant@));
                    }
                }
                assert forall|p: Seq<char>|
                    #[trigger] sets_view(found).contains_key(p) && !listed.take(j + 1).contains(p) implies start.contains_key(p)
                        && sets_view(found)[p] == start[p] by {
                    assert(listed.take(j + 1)[j as int] == listed[j as int]);
                    assert(p != listed[j as int]);
                    assert(before.contains_key(p));
                    assert(!listed.take(j as int).contains(p));
                }
            }
            j = j + 1;
        }
        proof {
            assert(listed.take(owned_keys@.len() as int) =~= listed);
            assert forall|p: Seq<char>|
                #[trigger] sets_view(found).contains_key(p) <==> exists|v: Seq<char>|
                    #[trigger] owns_path(tp, v, p) && after_keys.contains(v) by {
                if sets_view(found).contains_key(p) {
                    if !start.contains_key(p) {
                        assert(listed.contains(p));
                        assert(listed.to_set().contains(p));
                        assert(owns_path(tp, variant@, p));
                    } else {
                        let v = choose|v: Seq<char>| #[trigger] owns_path(tp, v, p) && before_keys.contains(v);
                        assert(after_keys.contains(v));
                    }
                }
                if exists|v: Seq<char>| #[trigger] owns_path(tp, v, p) && after_keys.contains(v) {
                    let v = choose|v: Seq<char>| #[trigger] owns_path(tp, v, p) && after_keys.contains(v);
                    if v == variant@ {
                        assert(tp[variant@].contains(p));
                        assert(listed.to_set().contains(p));
                        assert(listed.contains(p));
                    } else {
                        assert(before_keys.contains(v));
                        assert(start.contains_key(p));
                    }
                }
            }
            assert forall|p: Seq<char>|
                #[trigger] sets_view(found).contains_key(p) implies exists|v: Seq<char>|
                    #[trigger] last_owner_among(tp, after_keys, v, p) && sets_view(found)[p] == set_at(tva, v) by {
                if listed.contains(p) {
                    assert(listed.to_set().contains(p));
                    assert(owns_path(tp, variant@, p));
                    assert forall|other: Seq<char>| #[trigger] owns_path(tp, other, p) && after_keys.contains(other) implies !text_lt(variant@, other) by {
                        if other == variant@ {
                            crate::ordered::lemma_bytes_lt_irreflexive(crate::text::utf8(variant@));
                        } else {
                            assert(before_keys.contains(other));
                            assert(text_lt(other, variant@));
                            crate::ordered::lemma_bytes_lt_asym(crate::text::utf8(other), crate::text::utf8(variant@));
                        }
                    }
                    assert(last_owner_among(tp, after_keys, variant@, p));
                } else {
                    assert(start.contains_key(p) && sets_view(found)[p] == start[p]);
                    let v = choose|v: Seq<char>| #[trigger] last_owner_among(tp, before_keys, v, p) && start[p] == set_at(tva, v);
                    assert forall|other: Seq<char>| #[trigger] owns_path(tp, other, p) && after_keys.contains(other) implies !text_lt(v, other) by {
                        if other == variant@ {
                            assert(tp[variant@].contains(p));
                            assert(listed.to_set().contains(p));
                        } else {
                            assert(before_keys.contains(other));
                        }
                    }
                    assert(last_owner_among(tp, after_keys, v, p));
                }
            }
        }
        i = i + 1;
    }
    proof {
        assert(keys.take(keys.len() as int) =~= keys);
        assert forall|p: Seq<char>|
            #[trigger] sets_view(found).contains_key(p) <==> exists|v: Seq<char>| #[trigger] owns_path(tp, v, p) by {
            if exists|v: Seq<char>| #[trigger] owns_path(tp, v, p) {
                let v = choose|v: Seq<char>| #[trigger] owns_path(tp, v, p);
                assert(paths.view_map().contains_key(v));
                assert(keys.contains(v));
            }
        }
        assert forall|p: Seq<char>|
            #[trigger] sets_view(found).contains_key(p) implies exists|v: Seq<char>|
                #[trigger] last_owner(tp, v, p) && sets_view(found)[p] == set_at(tva, v) by {
            let v = choose|v: Seq<char>| #[trigger] last_owner_among(tp, keys, v, p) && sets_view(found)[p] == set_at(tva, v);
            assert forall|other: Seq<char>| #[trigger] owns_path(tp, other, p) implies !text_lt(v, other) by {
                assert(paths.view_map().contains_key(other));
                assert(keys.contains(other));
            }
            assert(last_owner(tp, v, p));
        }
    }
    found
}

/// The static capability graph of a release.
pub struct CapabilityGraph {
    pub builtin_functions: TextMap<()>,
    pub type_constructors: TextMap<()>,
    pub exception_types: TextMap<()>,
    pub modules: TextMap<()>,
    pub module_attributes: TextMap<TextMap<()>>,
    pub type_attributes: TextMap<TextMap<()>>,
}

impl CapabilityGraph {
    pub open spec fn wf(&self) -> bool {
        &&& self.builtin_functions.wf()
        &&& self.type_constructors.wf()
        &&& self.exception_types.wf()
        &&& self.modules.wf()
        &&& sets_wf(self.module_attributes)
        &&& sets_wf(self.type_attributes)
    }
}

/// The Python names of the `StaticStrings` variants, from the masked interning source.
pub open spec fn graph_names(sources: SourceBundle) -> Map<Seq<char>, Seq<char>> {
    static_names_spec(masked(sources.intern@))
}

/// Each builtin type constructor's variant mapped to its Python name.
pub open spec fn graph_constructors(sources: SourceBundle) -> Map<Seq<char>, Seq<char>> {
    with_pairs(Map::empty(), type_name_pairs(named_bodies(masked(sources.types@), "from_builtin_name"@)))
}

/// The modules the release's files register.
pub open spec fn graph_registered(sources: SourceBundle) -> Seq<(Seq<char>, Set<Seq<char>>, Map<Seq<char>, Seq<char>>)> {
    all_registered(masked_files(sources.rust_files), graph_names(sources))
}

/// The builtin modules: those the module source declares, else the registered ones.
pub open spec fn graph_modules(sources: SourceBundle) -> Set<Seq<char>> {
    let parsed = builtin_modules_spec(masked(sources.modules@), graph_names(sources));
    if parsed == Set::<Seq<char>>::empty() {
        registered_attributes(Map::empty(), graph_registered(sources)).dom()
    } else {
        parsed
    }
}

/// The attributes each builtin module registers.
pub open spec fn graph_module_attributes(sources: SourceBundle) -> Map<Seq<char>, Set<Seq<char>>> {
    let registered = registered_attributes(Map::empty(), graph_registered(sources));
    Map::new(|n: Seq<char>| graph_modules(sources).contains(n), |n: Seq<char>| set_at(registered, n))
}

/// The import paths of each builtin type.
pub open spec fn graph_type_paths(sources: SourceBundle) -> Map<Seq<char>, Set<Seq<char>>> {
    type_paths_spec(
        graph_constructors(sources),
        graph_modules(sources),
        registered_bindings(Map::empty(), graph_registered(sources)),
    )
}

/// The attributes each runtime type answers to: through `call_class_method`,
/// and through the dispatch of every `PyTrait` implementation.
pub open spec fn graph_type_variant_attributes(sources: SourceBundle) -> Map<Seq<char>, Set<Seq<char>>> {
    let files = masked_files(sources.rust_files);
    let names = graph_names(sources);
    type_variant_attributes(
        grouped(Map::empty(), class_entries_of(named_bodies(masked(sources.types@), "call_class_method"@), names)),
        dispatch_units(files),
        function_index_spec(files),
        names,
    )
}

/// Every pattern the capability reader uses compiles.
pub open spec fn capability_patterns_compile() -> bool {
    &&& regex_build_error(FEATURE_GATE@) is None
    &&& crate::capability_scan::static_names_compile()
    &&& regex_build_error(crate::capability_scan::TYPE_NAME_MAPPING@) is None
    &&& regex_build_error(FUNCTION_HEADER@) is None
    &&& crate::capability_scan::registration_patterns_compile()
    &&& crate::capability_scan::module_patterns_compile()
    &&& regex_build_error(PYTRAIT_IMPLEMENTATION@) is None
    &&& crate::dispatch::runtime_patterns_compile()
    &&& crate::dispatch::type_dispatch_patterns_compile()
    &&& regex_build_error(CLASS_METHOD_ARM@) is None
    &&& regex_build_error(ENUM_HEADER@) is None
    &&& regex_build_error(VARIANT_NAME@) is None
}

/// The values of a map as a set.
fn values_set(map: &TextMap<String>) -> (set: TextMap<()>)
    requires
        map.wf(),
    ensures
        set.wf(),
        set_view(set) == Set::new(
            |n: Seq<char>| exists|v: Seq<char>| #[trigger] text_map_view(*map).contains_key(v) && text_map_view(*map)[v] == n,
        ),
{
    let ghost all = text_map_view(*map);
    let ghost keys = map.key_seq();
    let mut values: Vec<String> = Vec::new();
    let mut i: usize = 0;
    while i < map.len()
        invariant
            map.wf(),
            all == text_map_view(*map),
            keys == map.key_seq(),
            i <= keys.len(),
            forall|n: Seq<char>|
                #[trigger] text_views(values@).contains(n) <==> exists|v: Seq<char>|
                    #[trigger] all.contains_key(v) && keys.take(i as int).contains(v) && all[v] == n,
        decreases keys.len() - i,
    {
        let (key, value) = map.entry_at(i);
        let ghost before = text_views(values@);
        values.push(value.clone());
        proof {
            assert(text_views(values@) =~= before.push(value@));
            assert(all[key@] == value@);
            assert(keys.take(i + 1) =~= keys.take(i as int).push(keys[i as int]));
            assert forall|n: Seq<char>|
                #[trigger] text_views(values@).contains(n) <==> exists|v: Seq<char>|
                    #[trigger] all.contains_key(v) && keys.take(i + 1).contains(v) && all[v] == n by {
                lemma_push_to_set(before, value@);
                lemma_push_to_set(keys.take(i as int), keys[i as int]);
                assert(text_views(values@).to_set().contains(n) == text_views(values@).contains(n));
                assert(before.to_set().contains(n) == before.contains(n));
                if text_views(values@).contains(n) {
                    if n == value@ {
                        assert(all.contains_key(key@) && keys.take(i + 1).contains(key@) && all[key@] == n) by {
                            assert(keys.take(i + 1).to_set().contains(key@));
                        }
                    } else {
                        assert(before.contains(n));
                        let v = choose|v: Seq<char>| #[trigger] all.contains_key(v) && keys.take(i as int).contains(v) && all[v] == n;
                        assert(keys.take(i + 1).to_set().contains(v));
                    }
                }
                if exists|v: Seq<char>| #[trigger] all.contains_key(v) && keys.take(i + 1).contains(v) && all[v] == n {
                    let v = choose|v: Seq<char>| #[trigger] all.contains_key(v) && keys.take(i + 1).contains(v) && all[v] == n;
                    assert(keys.take(i + 1).to_set().contains(v));
                    if v != key@ {
                        assert(keys.take(i as int).to_set().contains(v));
                        assert(before.contains(n));
                    }
                }
            }
        }
        i = i + 1;
    }
    assert(keys.take(keys.len() as int) =~= keys);
    let mut set = empty_set();
    insert_texts(&mut set, values);
    assert(set_view(set) =~= Set::new(
        |n: Seq<char>| exists|v: Seq<char>| #[trigger] text_map_view(*map).contains_key(v) && text_map_view(*map)[v] == n,
    )) by {
        assert forall|n: Seq<char>| set_view(set).contains(n) <==> exists|v: Seq<char>| #[trigger] all.contains_key(v) && all[v] == n by {
            assert(set_view(set).contains(n) == text_views(values@).to_set().contains(n));
            assert(text_views(values@).to_set().contains(n) == text_views(values@).contains(n));
            if text_views(values@).contains(n) {
                let v = choose|v: Seq<char>| #[trigger] all.contains_key(v) && keys.take(keys.len() as int).contains(v) && all[v] == n;
                assert(all.contains_key(v) && all[v] == n);
            }
            if exists|v: Seq<char>| #[trigger] all.contains_key(v) && all[v] == n {
                let v = choose|v: Seq<char>| #[trigger] all.contains_key(v) && all[v] == n;
                assert(keys.contains(v));
                assert(keys.take(keys.len() as int).contains(v));
                assert(text_views(values@).contains(n));
            }
        }
    }
    set
}

/// A graph is the capability graph of a bundle: its builtin functions and
/// exception types as the tables declare them, its type constructors, modules
/// and module attributes, and the attributes of each type's import paths.
pub open spec fn describes(graph: CapabilityGraph, sources: SourceBundle) -> bool {
    &&& graph.wf()
    &&& set_view(graph.builtin_functions) == decoded(
        enum_variants_spec(sources.builtins@, utf8("BuiltinsFunctions"@)),
    ).map_values(|v: Seq<char>| lowercase_text(v)).to_set()
    &&& set_view(graph.type_constructors) == Set::new(
        |n: Seq<char>| exists|v: Seq<char>| #[trigger] graph_constructors(sources).contains_key(v)
            && graph_constructors(sources)[v] == n,
    )
    &&& set_view(graph.exception_types) == decoded(enum_variants_spec(sources.exceptions@, utf8("ExcType"@))).to_set()
    &&& set_view(graph.modules) == graph_modules(sources)
    &&& sets_view(graph.module_attributes) == graph_module_attributes(sources)
    &&& type_attributes_hold(
        sets_view(graph.type_attributes),
        graph_type_paths(sources),
        graph_type_variant_attributes(sources),
    )
}

/// Build the complete static capability graph from a loaded source bundle:
/// every source is read with its feature-gated items blanked, except the
/// builtin function and exception tables, which are read as they are.
pub fn extract_sources(sources: &SourceBundle) -> (found: Result<CapabilityGraph, ExtractError>)
    requires
        sources.rust_files.wf(),
    ensures
        capability_patterns_compile() ==> found is Ok,
        found matches Err(error) ==> error is InvalidPattern,
        found matches Ok(graph) ==> describes(graph, *sources),
{
    let intern = match mask(sources.intern.as_str()) {
        Ok(text) => text,
        Err(error) => return Err(error),
    };
    let static_strings = match parse_static_strings_map(intern.as_str()) {
        Ok(names) => names,
        Err(error) => return Err(error),
    };
    let types = match mask(sources.types.as_str()) {
        Ok(text) => text,
        Err(error) => return Err(error),
    };
    let constructors = match parse_builtin_type_variants(types.as_str()) {
        Ok(constructors) => constructors,
        Err(error) => return Err(error),
    };
    let modules_source = match mask(sources.modules.as_str()) {
        Ok(text) => text,
        Err(error) => return Err(error),
    };
    let files = match mask_files(&sources.rust_files) {
        Ok(files) => files,
        Err(error) => return Err(error),
    };
    let (registered, bindings) = match registrations_of(&files, &static_strings) {
        Ok(found) => found,
        Err(error) => return Err(error),
    };
    let parsed = match parse_builtin_modules(modules_source.as_str(), &static_strings) {
        Ok(parsed) => parsed,
        Err(error) => return Err(error),
    };
    proof {
        lemma_set_keys(parsed);
        lemma_empty_to_set(parsed.key_seq());
    }
    let modules = if parsed.len() == 0 {
        let names = keys_of(&registered);
        let mut set = empty_set();
        insert_texts(&mut set, names);
        assert(set_view(set) =~= registered_attributes(Map::empty(), graph_registered(*sources)).dom());
        set
    } else {
        parsed
    };
    let module_names = keys_of(&modules);
    proof {
        lemma_set_keys(modules);
    }
    let ghost registered_view = sets_view(registered);
    let ghost views = text_views(module_names@);
    let mut module_attributes = empty_sets();
    let mut i: usize = 0;
    while i < module_names.len()
        invariant
            sets_wf(module_attributes),
            sets_wf(registered),
            registered_view == sets_view(registered),
            views == text_views(module_names@),
            i <= module_names@.len(),
            forall|n: Seq<char>| #[trigger] sets_view(module_attributes).contains_key(n) <==> views.take(i as int).contains(n),
            forall|n: Seq<char>|
                #[trigger] sets_view(module_attributes).contains_key(n) ==> sets_view(module_attributes)[n] == set_at(
                    registered_view,
                    n,
                ),
        decreases module_names@.len() - i,
    {
        let name = &module_names[i];
        let copied = match registered.get(name.as_str()) {
            Some(inner) => {
                assert(registered.view_map().contains_key(name@));
                copy_set(inner)
            },
            None => empty_set(),
        };
        let ghost before = sets_view(module_attributes);
        let ghost made = set_view(copied);
        assert(made == set_at(registered_view, name@));
        module_attributes.insert(name.clone(), copied);
        assert(sets_view(module_attributes) =~= before.insert(name@, made));
        proof {
            assert(views[i as int] == name@);
            assert(views.take(i + 1) =~= views.take(i as int).push(name@));
            assert forall|n: Seq<char>| views.take(i + 1).contains(n) <==> (views.take(i as int).contains(n) || n == name@) by {
                lemma_push_to_set(views.take(i as int), name@);
                assert(views.take(i + 1).to_set().contains(n) == views.take(i + 1).contains(n));
                assert(views.take(i as int).to_set().contains(n) == views.take(i as int).contains(n));
            }
            assert forall|n: Seq<char>| #[trigger] sets_view(module_attributes).contains_key(n) <==> views.take(i + 1).contains(n) by {
                assert(before.contains_key(n) <==> views.take(i as int).contains(n));
            }
            assert forall|n: Seq<char>| #[trigger] sets_view(module_attributes).contains_key(n) implies sets_view(module_attributes)[n] == set_at(registered_view, n) by {
                if n != name@ {
                    assert(before.contains_key(n));
                }
            }
        }
        i = i + 1;
    }
    proof {
        assert(views.take(module_names@.len() as int) =~= views);
        assert forall|n: Seq<char>| views.contains(n) <==> set_view(modules).contains(n) by {
            assert(views.to_set().contains(n) == views.contains(n));
        }
        assert(sets_view(module_attributes) =~= graph_module_attributes(*sources));
    }
    let paths = type_paths_of(&constructors, &modules, &bindings);
    let function_index = match function_index_of(&files) {
        Ok(index) => index,
        Err(error) => return Err(error),
    };
    let class_methods = match class_method_attributes(types.as_str(), &static_strings) {
        Ok(found) => found,
        Err(error) => return Err(error),
    };
    let type_variant_attributes = match type_variant_attributes_of(class_methods, &files, &function_index, &static_strings) {
        Ok(found) => found,
        Err(error) => return Err(error),
    };
    let type_attributes = type_attributes_of(&paths, &type_variant_attributes);
    let builtin_functions = match parse_builtin_functions(sources.builtins.as_str()) {
        Ok(found) => found,
        Err(error) => return Err(error),
    };
    let exception_types = match parse_exception_types(sources.exceptions.as_str()) {
        Ok(found) => found,
        Err(error) => return Err(error),
    };
    let type_constructors = values_set(&constructors);
    Ok(CapabilityGraph {
        builtin_functions,
        type_constructors,
        exception_types,
        modules,
        module_attributes,
        type_attributes,
    })
}

/// A bundle holds exactly the given Rust files, with the tables read from their paths.
pub open spec fn bundle_of(sources: SourceBundle, files: Map<Seq<char>, Seq<char>>) -> bool {
    &&& sources.rust_files.wf()
    &&& text_map_view(sources.rust_files) == files
    &&& sources.builtins@ == files[crate::extract::builtins_path(files.dom())]
    &&& sources.exceptions@ == files[crate::extract::exceptions_path(files.dom())]
    &&& sources.modules@ == files[crate::extract::MODULES_REL@]
    &&& sources.types@ == files[crate::extract::TYPES_REL@]
    &&& sources.intern@ == files[crate::extract::INTERN_REL@]
}

/// Extract a capability graph from an in-memory GitHub-style ZIP archive.
pub fn extract_zip(bytes: &[u8]) -> (found: Result<CapabilityGraph, ExtractError>)
    ensures
        match crate::archive::archive_sources(bytes@) {
            Err(failure) => found matches Err(error) && crate::archive::failure_matches(failure, error),
            Ok(files) => {
                &&& !crate::extract::bundle_complete(files.dom()) ==> (found matches Err(error) && error is MissingSource)
                &&& (crate::extract::bundle_complete(files.dom()) && capability_patterns_compile()) ==> found is Ok
                &&& found matches Err(error) ==> error is MissingSource || error is InvalidPattern
                &&& found matches Ok(graph) ==> exists|sources: SourceBundle| #[trigger] bundle_of(sources, files) && describes(graph, sources)
            },
        },
{
    let sources = match SourceBundle::from_zip_bytes(bytes) {
        Ok(sources) => sources,
        Err(error) => return Err(error),
    };
    let found = extract_sources(&sources);
    assert(bundle_of(sources, text_map_view(sources.rust_files)));
    found
}

/// A graph by its sets and maps.
pub open spec fn graph_view(graph: CapabilityGraph) -> (
    Set<Seq<char>>,
    Set<Seq<char>>,
    Set<Seq<char>>,
    Set<Seq<char>>,
    Map<Seq<char>, Set<Seq<char>>>,
    Map<Seq<char>, Set<Seq<char>>>,
) {
    (
        set_view(graph.builtin_functions),
        set_view(graph.type_constructors),
        set_view(graph.exception_types),
        set_view(graph.modules),
        sets_view(graph.module_attributes),
        sets_view(graph.type_attributes),
    )
}

/// Two bundles hold the same texts under the same paths.
pub open spec fn same_sources(a: SourceBundle, b: SourceBundle) -> bool {
    &&& a.builtins@ == b.builtins@
    &&& a.modules@ == b.modules@
    &&& a.types@ == b.types@
    &&& a.exceptions@ == b.exceptions@
    &&& a.intern@ == b.intern@
    &&& a.rust_files.key_seq() == b.rust_files.key_seq()
    &&& text_map_view(a.rust_files) == text_map_view(b.rust_files)
}

/// A path has at most one last owner.
proof fn lemma_last_owner_unique(paths: Map<Seq<char>, Set<Seq<char>>>, a: Seq<char>, b: Seq<char>, path: Seq<char>)
    requires
        last_owner(paths, a, path),
        last_owner(paths, b, path),
    ensures
        a == b,
{
    assert(owns_path(paths, b, path));
    assert(owns_path(paths, a, path));
    crate::ordered::lemma_bytes_lt_total(utf8(a), utf8(b));
    crate::text::lemma_utf8_injective(a, b);
}

/// Extraction is a function of the sources: graphs of bundles that hold the
/// same texts under the same paths are the same graph.
pub proof fn lemma_graph_is_determined(
    first: CapabilityGraph,
    first_sources: SourceBundle,
    second: CapabilityGraph,
    second_sources: SourceBundle,
)
    requires
        describes(first, first_sources),
        describes(second, second_sources),
        same_sources(first_sources, second_sources),
    ensures
        graph_view(first) == graph_view(second),
{
    let files_a = first_sources.rust_files;
    let files_b = second_sources.rust_files;
    assert(masked_files(files_a) =~= masked_files(files_b)) by {
        assert forall|i: int| 0 <= i < files_a.key_seq().len() implies #[trigger] masked_files(files_a)[i] == masked_files(files_b)[i] by {
            let k = files_a.key_seq()[i];
            assert(files_a.view_map().contains_key(k));
            assert(text_map_view(files_a)[k] == text_map_view(files_b)[k]);
        }
    }
    let paths = graph_type_paths(first_sources);
    let attributes = graph_type_variant_attributes(first_sources);
    assert(graph_type_paths(second_sources) == paths);
    assert(graph_type_variant_attributes(second_sources) == attributes);
    let ta = sets_view(first.type_attributes);
    let tb = sets_view(second.type_attributes);
    assert forall|p: Seq<char>| ta.contains_key(p) <==> tb.contains_key(p) by {}
    assert forall|p: Seq<char>| #[trigger] ta.contains_key(p) implies ta[p] == tb[p] by {
        let v = choose|v: Seq<char>| #[trigger] last_owner(paths, v, p) && ta[p] == set_at(attributes, v);
        let w = choose|w: Seq<char>| #[trigger] last_owner(paths, w, p) && tb[p] == set_at(attributes, w);
        lemma_last_owner_unique(paths, v, w, p);
    }
    assert(ta =~= tb);
}

/// A checkout and an archive that hold the same Rust sources under the same
/// paths load the same bundle, and extraction gives the same graph from both.
pub proof fn lemma_loaders_agree(
    files: Map<Seq<char>, Seq<char>>,
    local: SourceBundle,
    archived: SourceBundle,
    local_graph: CapabilityGraph,
    archived_graph: CapabilityGraph,
)
    requires
        crate::extract::loaded_from(local, files),
        crate::extract::loaded_from(archived, files),
        describes(local_graph, local),
        describes(archived_graph, archived),
    ensures
        same_sources(local, archived),
        graph_view(local_graph) == graph_view(archived_graph),
{
    let a = local.rust_files;
    let b = archived.rust_files;
    assert forall|k: Seq<char>| a.key_seq().contains(k) <==> b.key_seq().contains(k) by {
        a.lemma_keys();
        b.lemma_keys();
        if a.key_seq().contains(k) {
            let i = choose|i: int| 0 <= i < a.key_seq().len() && a.key_seq()[i] == k;
            a.lemma_entry(i);
            assert(text_map_view(a).contains_key(k));
            assert(text_map_view(b).contains_key(k));
        }
        if b.key_seq().contains(k) {
            let i = choose|i: int| 0 <= i < b.key_seq().len() && b.key_seq()[i] == k;
            b.lemma_entry(i);
            assert(text_map_view(b).contains_key(k));
            assert(text_map_view(a).contains_key(k));
        }
    }
    a.lemma_sorted();
    b.lemma_sorted();
    crate::ordered::lemma_sorted_keys_unique(a.key_seq(), b.key_seq());
    lemma_graph_is_determined(local_graph, local, archived_graph, archived);
}

} // verus!
