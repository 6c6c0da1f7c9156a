use monty_compat::facts::{
    method_kind_from_decorators, BindingState, BuiltinKind, ClassInfo, ClassMember, ExprShape,
    MethodKind, TypeFacts,
};

fn class(bases: &[&str], methods: &[(&str, MethodKind)]) -> ClassInfo {
    let mut info = ClassInfo::new(0, 10);
    for base in bases {
        info.add_base((*base).to_owned());
    }
    for (name, kind) in methods {
        info.add_method((*name).to_owned(), *kind);
    }
    info
}

#[test]
fn methods_resolve_through_first_bases() {
    let mut facts = TypeFacts::new();
    facts.add_class("Base".to_owned(), class(&[], &[("run", MethodKind::Static)]));
    facts.add_class("Child".to_owned(), class(&["Base", "Other"], &[("own", MethodKind::Instance)]));
    assert_eq!(facts.resolves_method("Child", "own"), Some(("Child", MethodKind::Instance)));
    assert_eq!(facts.resolves_method("Child", "run"), Some(("Base", MethodKind::Static)));
    assert_eq!(facts.resolves_method("Child", "missing"), None);
    assert_eq!(facts.resolves_method("Unknown", "run"), None);
}

#[test]
fn cyclic_bases_end_the_lookup() {
    let mut facts = TypeFacts::new();
    facts.add_class("A".to_owned(), class(&["B"], &[]));
    facts.add_class("B".to_owned(), class(&["A"], &[]));
    assert_eq!(facts.resolves_method("A", "run"), None);
}

#[test]
fn disagreeing_assignments_make_a_binding_ambiguous() {
    let mut facts = TypeFacts::new();
    facts.add_class("Item".to_owned(), class(&[], &[]));
    facts.record_assignment("item", &ExprShape::Call(Some("Item".to_owned())));
    facts.record_assignment("values", &ExprShape::ListLiteral);
    facts.record_assignment("values", &ExprShape::Call(Some("list".to_owned())));
    facts.record_assignment("mixed", &ExprShape::DictLiteral);
    facts.record_assignment("mixed", &ExprShape::ListLiteral);
    assert_eq!(facts.class_for_expr(&ExprShape::Name("item".to_owned())), Some("Item"));
    assert_eq!(facts.builtin_for_expr(&ExprShape::Name("values".to_owned())), Some(BuiltinKind::List));
    assert_eq!(facts.builtin_for_expr(&ExprShape::Name("mixed".to_owned())), None);
    assert!(facts.is_name_bound("mixed"));
    assert!(facts.is_name_bound("Item"));
    assert!(!facts.is_name_bound("other"));
    facts.record_binding("mixed", BindingState::Builtin(BuiltinKind::Dict));
    assert_eq!(facts.builtin_for_expr(&ExprShape::Name("mixed".to_owned())), None);
}

#[test]
fn decorators_select_the_first_known_kind() {
    let names = vec![Some("cache".to_owned()), Some("classmethod".to_owned()), Some("property".to_owned())];
    assert_eq!(method_kind_from_decorators(&names), MethodKind::Class);
    assert_eq!(method_kind_from_decorators(&vec![None]), MethodKind::Instance);
}

#[test]
fn class_facts_keep_members_in_order() {
    let mut info = ClassInfo::new(3, 40);
    info.add_member(ClassMember { name: Some("x".to_owned()), start: 10, end: 15 });
    info.add_member(ClassMember { name: None, start: 16, end: 20 });
    assert_eq!(info.members().len(), 2);
    assert_eq!(info.definition_range(), (3, 40));
    assert!(info.bases().is_empty());
    let mut facts = TypeFacts::new();
    facts.add_function_name("helper".to_owned());
    facts.mark_dead_result(12);
    assert!(facts.is_function_name("helper"));
    assert!(facts.is_dead_result(12));
    assert!(!facts.is_dead_result(13));
    assert_eq!(facts.canonical_class("Missing"), None);
}
