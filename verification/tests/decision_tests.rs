use anpai::decision::{
    hit_any, hit_collect, hit_first, hit_priority, hit_unique, unsupported_policy, HitFailure,
    RuleEval,
};

fn rule(matched: bool, output: &str) -> RuleEval<String> {
    RuleEval { matched: Some(matched), output: Some(output.to_owned()) }
}

#[test]
fn first_takes_the_first_match() {
    let rs = vec![rule(false, "zero"), rule(true, "first"), rule(true, "second")];
    assert_eq!(hit_first(&rs).unwrap(), Some(1));
    assert_eq!(hit_first(&vec![rule(false, "x")]).unwrap(), None);
}

#[test]
fn unique_refuses_two_matches() {
    let rs = vec![rule(true, "first"), rule(true, "second")];
    match hit_unique(&rs) {
        Err(HitFailure::Policy(m)) => assert_eq!(m, "UNIQUE matched multiple rules (0, 1)"),
        other => panic!("unexpected {:?}", other),
    }
    assert_eq!(hit_unique(&vec![rule(false, "a"), rule(true, "b")]).unwrap(), Some(1));
}

#[test]
fn collect_gives_every_match() {
    let rs = vec![rule(true, "first"), rule(true, "second"), rule(false, "ignored")];
    assert_eq!(hit_collect(&rs).unwrap(), vec![0, 1]);
    assert_eq!(hit_collect(&vec![rule(false, "ignored")]).unwrap(), Vec::<usize>::new());
}

#[test]
fn any_needs_equal_outputs() {
    assert_eq!(hit_any(&vec![rule(true, "same"), rule(true, "same")]).unwrap(), Some(0));
    match hit_any(&vec![rule(true, "first"), rule(true, "second")]) {
        Err(HitFailure::Policy(m)) => {
            assert_eq!(m, "ANY matched rules 0 and 1 with different outputs")
        }
        other => panic!("unexpected {:?}", other),
    }
}

#[test]
fn priority_takes_the_highest() {
    let rs = vec![
        RuleEval { matched: Some(true), output: Some(vec![1]) },
        RuleEval { matched: Some(true), output: Some(vec![0]) },
        RuleEval { matched: Some(true), output: Some(vec![0]) },
    ];
    assert_eq!(hit_priority(&rs).unwrap(), Some(1));
}

#[test]
fn failures_surface_in_rule_order() {
    let rs = vec![RuleEval { matched: None, output: Some("x".to_owned()) }, rule(true, "y")];
    assert!(matches!(hit_first(&rs), Err(HitFailure::MatchFailed(0))));
    let rs = vec![rule(true, "a"), RuleEval { matched: Some(true), output: None }];
    assert!(matches!(hit_collect(&rs), Err(HitFailure::OutputFailed(1))));
    assert_eq!(unsupported_policy("RULE ORDER"), "unsupported hit policy `RULE ORDER`");
}
