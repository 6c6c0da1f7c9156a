use monty_compat::match_lower::{
    combine_plan_sets, source_slice, suite_source, MatchLowerError, PatternCompiler, PatternPlan,
    MAX_PATTERN_ALTERNATIVES,
};

fn plan(condition: &str, bindings: &[&str]) -> PatternPlan {
    PatternPlan {
        condition: condition.to_owned(),
        bindings: bindings.iter().map(|name| (*name).to_owned()).collect(),
    }
}

#[test]
fn plans_combine_conditions_and_bindings() {
    let combined = plan("a", &["x"]).combine(plan("b", &["y"]));
    assert_eq!(combined.condition, "(a) and (b)");
    assert_eq!(combined.bindings, vec!["x".to_owned(), "y".to_owned()]);
    assert_eq!(PatternPlan::always().condition, "True");
}

#[test]
fn plan_sets_pair_every_alternative_left_major() {
    let plans = combine_plan_sets(vec![plan("a", &[]), plan("b", &[])], vec![plan("c", &[]), plan("d", &[])])
        .expect("four alternatives");
    let conditions: Vec<&str> = plans.iter().map(|plan| plan.condition.as_str()).collect();
    assert_eq!(conditions, vec!["(a) and (c)", "(a) and (d)", "(b) and (c)", "(b) and (d)"]);
    let left: Vec<PatternPlan> = (0..17).map(|_| PatternPlan::always()).collect();
    let right: Vec<PatternPlan> = (0..16).map(|_| PatternPlan::always()).collect();
    assert!(matches!(
        combine_plan_sets(left, right),
        Err(MatchLowerError::TooManyPatternAlternatives { limit: MAX_PATTERN_ALTERNATIVES })
    ));
}

#[test]
fn fresh_names_skip_names_the_source_uses() {
    let source = "x = _monty_compat_match_subject_0\n";
    let mut compiler = PatternCompiler::new(source);
    assert_eq!(compiler.fresh_name("subject").as_deref(), Ok("_monty_compat_match_subject_1"));
    assert_eq!(compiler.fresh_name("value").as_deref(), Ok("_monty_compat_match_value_2"));
}

#[test]
fn case_bodies_are_cut_and_reindented() {
    let source = "match x:\n    case 1:\n        y = 1\n        z = 2\n";
    let first = source.find("y = 1").unwrap();
    let last = source.find("z = 2").unwrap() + 5;
    assert_eq!(suite_source(source, Some((first, last)), "    ").as_deref(), Ok("    y = 1\n    z = 2\n"));
    assert_eq!(suite_source(source, None, ""), Err(MatchLowerError::EmptyCaseBody));
    assert_eq!(source_slice(source, 0, 5), Ok("match"));
    assert_eq!(source_slice(source, 5, 0), Err(MatchLowerError::InvalidSourceRange { start: 5, end: 0 }));
}
