use monty_compat::capability_graph::extract_sources;
use monty_compat::capability_scan::{
    module_set_attr_calls, parse_builtin_functions, parse_builtin_modules, parse_builtin_type_variants,
    parse_exception_types, parse_static_strings_map, registered_modules, static_string_arrays,
};
use monty_compat::dispatch::{
    attributes_from_dispatch, class_method_attributes, delegated_dispatch_calls, guarded_type_variants,
    pytrait_implementation_bodies, runtime_type_variants, type_dispatch_attributes,
};
use monty_compat::extract::{SourceBundle, INTERN_REL, MODULES_REL, TYPES_REL};
use monty_compat::ordered::TextMap;

fn names(pairs: &[(&str, &str)]) -> TextMap<String> {
    let mut map = TextMap::new();
    for (key, value) in pairs {
        map.insert(key.to_string(), value.to_string());
    }
    map
}

fn set(items: &[&str]) -> TextMap<()> {
    let mut map = TextMap::new();
    for item in items {
        map.insert(item.to_string(), ());
    }
    map
}

fn keys<V>(map: &TextMap<V>) -> Vec<String> {
    (0..map.len()).map(|index| map.key_at(index).clone()).collect()
}

const INTERN: &str = r#"
pub enum StaticStrings {
    // dunder names keep their spelling
    #[strum(serialize = "__len__")]
    DunderLen,
    #[cfg(feature = "extra")]
    FooBar,
    Upper,
    Lower,
    Encode,
    Strip,
    FromBytes,
    Math,
    Pi,
    Fraction,
    Sqrt,
    Floor,
}
"#;

#[test]
fn static_strings_take_serialized_names_or_snake_case() {
    let map = parse_static_strings_map(INTERN).expect("patterns compile");
    assert_eq!(map.get("DunderLen"), Some(&"__len__".to_string()));
    assert_eq!(map.get("FooBar"), Some(&"foo_bar".to_string()));
    assert_eq!(map.get("FromBytes"), Some(&"from_bytes".to_string()));
    assert_eq!(map.get("Upper"), Some(&"upper".to_string()));
    assert_eq!(map.len(), 12);
}

#[test]
fn static_strings_are_empty_without_the_enum() {
    let map = parse_static_strings_map("pub enum Other { A }").expect("patterns compile");
    assert_eq!(map.len(), 0);
}

const TYPES: &str = r#"
impl Type {
    pub fn from_builtin_name(name: &str) -> Option<Self> {
        match name {
            "int" => Some(Self::Int),
            "str" => Some(Self::Str),
            _ => None,
        }
    }

    fn call_class_method(&self, method: StaticStrings) -> Value {
        match (self, method) {
            (Self::Str, name) if name == StaticStrings::Encode => not_implemented("encode"),
            (Self::Int, name) if name == StaticStrings::FromBytes => from_bytes(),
            (Self::Str, other) if name == StaticStrings::Strip => strip(),
            _ => missing(),
        }
    }
}
"#;

#[test]
fn builtin_type_constructors_map_variants_to_python_names() {
    let map = parse_builtin_type_variants(TYPES).expect("patterns compile");
    assert_eq!(keys(&map), vec!["Int".to_string(), "Str".to_string()]);
    assert_eq!(map.get("Int"), Some(&"int".to_string()));
    assert_eq!(map.get("Str"), Some(&"str".to_string()));
}

#[test]
fn class_methods_skip_unimplemented_and_mismatched_bindings() {
    let static_strings = parse_static_strings_map(INTERN).expect("patterns compile");
    let map = class_method_attributes(TYPES, &static_strings).expect("patterns compile");
    assert_eq!(keys(&map), vec!["Int".to_string()]);
    assert_eq!(keys(map.get("Int").expect("Int has class methods")), vec!["from_bytes".to_string()]);
}

#[test]
fn builtin_functions_and_exceptions_come_from_their_enums() {
    let builtins = "pub enum BuiltinsFunctions {\n    Len,\n    // comment\n    Print,\n}\n";
    let functions = parse_builtin_functions(builtins).expect("patterns compile");
    assert_eq!(keys(&functions), vec!["len".to_string(), "print".to_string()]);
    let exceptions = "pub(crate) enum ExcType {\n    ValueError,\n    #[doc]\n    TypeError,\n}\n";
    let types = parse_exception_types(exceptions).expect("patterns compile");
    assert_eq!(keys(&types), vec!["TypeError".to_string(), "ValueError".to_string()]);
}

#[test]
fn builtin_modules_prefer_dispatch_then_enums() {
    let static_strings = names(&[("Math", "math"), ("Sys", "sys")]);
    let dispatch = "match id {\n    StaticStrings::Math => Some(Self::Math),\n    StaticStrings::Unknown => Some(Self::Unknown),\n}\n";
    let modules = parse_builtin_modules(dispatch, &static_strings).expect("patterns compile");
    assert_eq!(keys(&modules), vec!["math".to_string()]);
    let enumerated = "pub enum StandardLib {\n    Math,\n    Sys,\n}\n";
    let fallback = parse_builtin_modules(enumerated, &static_strings).expect("patterns compile");
    assert_eq!(keys(&fallback), vec!["math".to_string(), "sys".to_string()]);
    let nothing = parse_builtin_modules("fn other() {}", &static_strings).expect("patterns compile");
    assert_eq!(nothing.len(), 0);
}

const MODULE_SOURCE: &str = r#"
const FUNCTIONS: [(StaticStrings, Function); 2] = [
    (StaticStrings::Sqrt, Function::Sqrt),
    (StaticStrings::Floor, Function::Floor),
];

pub fn create_module(heap: &mut Heap) -> Module {
    let mut module = Module::new(StaticStrings::Math);
    module.set_attr(StaticStrings::Pi, Value::Constant, heap);
    module.set_attr(StaticStrings::Fraction, Builtins::Type(Type::Fraction), heap);
    for (name, function) in FUNCTIONS {
        module.set_attr(name, function.into(), heap);
    }
    module
}
"#;

#[test]
fn set_attr_calls_and_arrays_are_read_in_order() {
    let calls = module_set_attr_calls(MODULE_SOURCE).expect("patterns compile");
    let variants: Vec<&str> = calls.iter().map(|(variant, _)| variant.as_str()).collect();
    assert_eq!(variants, vec!["Pi", "Fraction"]);
    assert!(calls[1].1.contains("Builtins::Type(Type::Fraction)"));
    let arrays = static_string_arrays(MODULE_SOURCE).expect("patterns compile");
    assert_eq!(arrays.get("FUNCTIONS"), Some(&vec!["Sqrt".to_string(), "Floor".to_string()]));
}

#[test]
fn registered_modules_collect_direct_and_looped_attributes() {
    let static_strings = parse_static_strings_map(INTERN).expect("patterns compile");
    let modules = registered_modules(MODULE_SOURCE, &static_strings).expect("patterns compile");
    assert_eq!(modules.len(), 1);
    assert_eq!(modules[0].name, "math");
    assert_eq!(
        keys(&modules[0].attributes),
        vec!["floor".to_string(), "fraction".to_string(), "pi".to_string(), "sqrt".to_string()]
    );
    assert_eq!(modules[0].bindings.get("fraction"), Some(&"Fraction".to_string()));
    assert_eq!(modules[0].bindings.len(), 1);
}

const STR_IMPL: &str = r#"
impl PyTrait for Str {
    fn py_type(&self) -> Type {
        Type::Str
    }

    fn py_call_attr(&self, method: StaticStrings) -> Value {
        match method {
            StaticStrings::Upper => self.upper(),
            StaticStrings::Lower if is_str(self) => self.lower(),
            StaticStrings::Encode => not_implemented("encode"),
            _ => helper_dispatch(method),
        }
    }
}

fn helper_dispatch(method: StaticStrings) -> Value {
    match method {
        StaticStrings::Strip => strip(),
        _ => other(),
    }
}
"#;

#[test]
fn guards_narrow_arms_to_the_named_types() {
    let variants = set(&["Int", "Str", "Bytes"]);
    let only = guarded_type_variants(Some("is_str(value)"), &variants).expect("patterns compile");
    assert_eq!(keys(&only), vec!["Str".to_string()]);
    let others = guarded_type_variants(Some("!is_str(value)"), &variants).expect("patterns compile");
    assert_eq!(keys(&others), vec!["Bytes".to_string(), "Int".to_string()]);
    let unknown = guarded_type_variants(Some("is_float(value)"), &variants).expect("patterns compile");
    assert_eq!(keys(&unknown), keys(&variants));
    let unguarded = guarded_type_variants(None, &variants).expect("patterns compile");
    assert_eq!(keys(&unguarded), keys(&variants));
}

#[test]
fn dispatch_delegates_only_calls_that_receive_the_selector() {
    let calls = delegated_dispatch_calls("helper(method); other(value); py_getattr(attr); third(attr_name)")
        .expect("patterns compile");
    assert_eq!(keys(&calls), vec!["helper".to_string(), "third".to_string()]);
}

#[test]
fn dispatch_arms_give_supported_and_unsupported_names() {
    let static_strings = parse_static_strings_map(INTERN).expect("patterns compile");
    let bodies = pytrait_implementation_bodies(STR_IMPL).expect("patterns compile");
    assert_eq!(bodies.len(), 1);
    let variants = runtime_type_variants(&bodies[0], STR_IMPL).expect("patterns compile");
    assert_eq!(keys(&variants), vec!["Str".to_string()]);
    let direct = attributes_from_dispatch(&bodies[0], &variants, &static_strings).expect("patterns compile");
    assert_eq!(
        keys(direct.get("Str").expect("every variant has an entry")),
        vec!["lower".to_string(), "upper".to_string()]
    );
}

#[test]
fn type_dispatch_follows_helpers_once() {
    let static_strings = parse_static_strings_map(INTERN).expect("patterns compile");
    let bodies = pytrait_implementation_bodies(STR_IMPL).expect("patterns compile");
    let variants = set(&["Str"]);
    let mut index: TextMap<Vec<String>> = TextMap::new();
    index.insert(
        "helper_dispatch".to_string(),
        vec!["match method {\n        StaticStrings::Strip => strip(),\n        _ => other(),\n    }".to_string()],
    );
    let found = type_dispatch_attributes(&bodies[0], &index, &static_strings, &variants).expect("patterns compile");
    assert_eq!(
        keys(found.get("Str").expect("every variant has an entry")),
        vec!["lower".to_string(), "strip".to_string(), "upper".to_string()]
    );
}

#[test]
fn the_whole_graph_is_assembled_from_a_bundle() {
    let mut files: TextMap<String> = TextMap::new();
    files.insert(INTERN_REL.to_string(), INTERN.to_string());
    files.insert(TYPES_REL.to_string(), TYPES.to_string());
    files.insert(MODULES_REL.to_string(), "pub enum StandardLib {\n    Math,\n}\n".to_string());
    files.insert(
        "crates/monty/src/builtins/mod.rs".to_string(),
        "pub enum BuiltinsFunctions {\n    Len,\n}\n".to_string(),
    );
    files.insert(
        "crates/monty/src/exception_private.rs".to_string(),
        "pub enum ExcType {\n    ValueError,\n}\n".to_string(),
    );
    files.insert("crates/monty/src/modules/math.rs".to_string(), MODULE_SOURCE.to_string());
    files.insert("crates/monty/src/types/str.rs".to_string(), STR_IMPL.to_string());
    let bundle = SourceBundle::from_rust_files(files).expect("every table is present");
    let graph = extract_sources(&bundle).expect("patterns compile");
    assert_eq!(keys(&graph.builtin_functions), vec!["len".to_string()]);
    assert_eq!(keys(&graph.exception_types), vec!["ValueError".to_string()]);
    assert_eq!(keys(&graph.type_constructors), vec!["int".to_string(), "str".to_string()]);
    assert_eq!(keys(&graph.modules), vec!["math".to_string()]);
    assert_eq!(
        keys(graph.module_attributes.get("math").expect("math is a module")),
        vec!["floor".to_string(), "fraction".to_string(), "pi".to_string(), "sqrt".to_string()]
    );
    assert_eq!(
        keys(&graph.type_attributes),
        vec!["int".to_string(), "math.fraction".to_string(), "str".to_string()]
    );
    assert_eq!(graph.type_attributes.get("math.fraction").map(|set| set.len()), Some(0));
    assert_eq!(
        keys(graph.type_attributes.get("str").expect("str has a path")),
        vec!["lower".to_string(), "strip".to_string(), "upper".to_string()]
    );
    assert_eq!(
        keys(graph.type_attributes.get("int").expect("int has a path")),
        vec!["from_bytes".to_string()]
    );
}
