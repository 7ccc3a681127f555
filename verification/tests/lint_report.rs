//! Exact content and order of what the lint pass reports.

use portcullis::lint::lint_chain;
use portcullis::{
    verify, Action, Chain, LintIssue, LintKind, Matcher, Policy, PortMatcher, Protocol, Rule,
    RuleId, Ruleset, ShapingPolicy,
};

fn rule(id: u64, priority: u32, matcher: Matcher, action: Action) -> Rule {
    Rule {
        id: RuleId(id),
        priority,
        matcher,
        action,
        description: None,
    }
}

fn tcp(port: u16) -> Matcher {
    Matcher {
        protocol: Protocol::Tcp,
        dst_port: PortMatcher::Single(port),
        ..Matcher::any()
    }
}

#[test]
fn issue_messages_are_exact() {
    let rs = Ruleset::new(vec![Chain::new(
        "input",
        vec![
            rule(1, 10, Matcher { protocol: Protocol::Tcp, ..Matcher::any() }, Action::Reject),
            rule(2, 20, tcp(22), Action::Accept),
            rule(3, 30, Matcher { protocol: Protocol::Tcp, ..Matcher::any() }, Action::Drop),
        ],
        Policy::Drop,
    )]);
    let err = verify(&rs).unwrap_err();
    assert_eq!(err.len(), 2);
    assert_eq!(err[0].kind, LintKind::Unreachable);
    assert_eq!(err[0].rule, Some(RuleId(2)));
    assert_eq!(err[0].other_rule, Some(RuleId(1)));
    assert_eq!(
        err[0].message,
        "matcher is a subset of rule 1 (priority 10, terminal reject); \
         every packet this rule would match is already consumed"
    );
    assert_eq!(err[1].kind, LintKind::Shadowed);
    assert_eq!(err[1].rule, Some(RuleId(3)));
    assert_eq!(
        err[1].message,
        "same matcher as rule 1 (priority 10), which is terminal (reject); this rule can never fire"
    );
    assert_eq!(
        err[1].to_string(),
        "[shadowed rule] chain `input` rules 3 / 1: same matcher as rule 1 (priority 10), \
         which is terminal (reject); this rule can never fire"
    );
}

#[test]
fn rules_are_walked_by_priority_not_declaration() {
    // Declared wide-first, but the narrow rule runs first: nothing is dead.
    let rs = Ruleset::new(vec![Chain::new(
        "input",
        vec![
            rule(1, 20, Matcher::any(), Action::Drop),
            rule(2, 10, tcp(22), Action::Accept),
        ],
        Policy::Drop,
    )]);
    assert_eq!(verify(&rs), Ok(()));
    // Swapping priorities makes rule 2 unreachable behind rule 1.
    let rs = Ruleset::new(vec![Chain::new(
        "input",
        vec![
            rule(1, 10, Matcher::any(), Action::Drop),
            rule(2, 20, tcp(22), Action::Accept),
        ],
        Policy::Drop,
    )]);
    let err = verify(&rs).unwrap_err();
    assert_eq!(err.len(), 1);
    assert_eq!(err[0].kind, LintKind::Unreachable);
}

#[test]
fn collision_message_and_ruleset_level_order() {
    let rs = Ruleset {
        version: 7,
        chains: vec![
            Chain::new("fwd", vec![rule(5, 10, tcp(22), Action::Accept), rule(6, 10, Matcher::any(), Action::Continue)], Policy::Drop),
            Chain::new("fwd", vec![rule(5, 1, tcp(80), Action::Accept)], Policy::Drop),
        ],
    };
    let err = verify(&rs).unwrap_err();
    let kinds: Vec<LintKind> = err.iter().map(|i| i.kind).collect();
    assert_eq!(
        kinds,
        vec![
            LintKind::UnsupportedVersion,
            LintKind::DuplicateChain,
            LintKind::DuplicateRuleId,
            LintKind::PriorityCollision,
        ]
    );
    assert_eq!(err[0].message, "ruleset version 7 is newer than supported version 1");
    assert_eq!(err[0].chain, None);
    assert_eq!(err[1].message, "chain name `fwd` appears more than once");
    assert_eq!(err[1].chain.as_deref(), Some("fwd"));
    assert_eq!(err[2].message, "rule id 5 is used more than once");
    assert_eq!(err[2].rule, Some(RuleId(5)));
    assert_eq!(
        err[3].message,
        "rules share priority 10 and overlapping matchers; evaluation order between them is undefined"
    );
    assert_eq!((err[3].rule, err[3].other_rule), (Some(RuleId(5)), Some(RuleId(6))));
    assert_eq!(
        err[2].to_string(),
        "[duplicate rule id] rule 5: rule id 5 is used more than once"
    );
    assert_eq!(
        err[0].to_string(),
        "[unsupported schema version] ruleset version 7 is newer than supported version 1"
    );
}

#[test]
fn every_overlapping_pair_of_a_priority_collides() {
    // Rules 2 and 3 share priority and overlap, though neither overlaps
    // rule 1, the first rule of that priority.
    let rs = Ruleset::new(vec![Chain::new(
        "input",
        vec![
            rule(1, 10, tcp(22), Action::Accept),
            rule(2, 10, tcp(80), Action::RateLimit(ShapingPolicy::pps(1, 1))),
            rule(3, 10, tcp(80), Action::Accept),
        ],
        Policy::Drop,
    )]);
    let err = verify(&rs).unwrap_err();
    assert_eq!(err.len(), 1);
    assert_eq!(err[0].kind, LintKind::PriorityCollision);
    assert_eq!(err[0].chain.as_deref(), Some("input"));
    assert_eq!((err[0].rule, err[0].other_rule), (Some(RuleId(2)), Some(RuleId(3))));
}

#[test]
fn three_overlapping_rules_of_a_priority_give_three_collisions() {
    let rs = Ruleset::new(vec![Chain::new(
        "input",
        vec![
            rule(1, 10, tcp(80), Action::Continue),
            rule(2, 10, tcp(80), Action::Continue),
            rule(3, 10, Matcher::any(), Action::Continue),
        ],
        Policy::Drop,
    )]);
    let err = verify(&rs).unwrap_err();
    let pairs: Vec<(Option<RuleId>, Option<RuleId>)> = err.iter().map(|i| (i.rule, i.other_rule)).collect();
    assert_eq!(
        pairs,
        vec![
            (Some(RuleId(1)), Some(RuleId(2))),
            (Some(RuleId(1)), Some(RuleId(3))),
            (Some(RuleId(2)), Some(RuleId(3))),
        ]
    );
    assert!(err.iter().all(|i| i.kind == LintKind::PriorityCollision));
}

#[test]
fn equal_matcher_with_the_same_action_is_unreachable() {
    let rs = Ruleset::new(vec![Chain::new(
        "input",
        vec![rule(1, 10, tcp(443), Action::Accept), rule(2, 20, tcp(443), Action::Accept)],
        Policy::Drop,
    )]);
    let err = verify(&rs).unwrap_err();
    assert_eq!(err.len(), 1);
    assert_eq!(err[0].kind, LintKind::Unreachable);
    assert_eq!((err[0].rule, err[0].other_rule), (Some(RuleId(2)), Some(RuleId(1))));
    // The message still names the matchers' relation.
    assert_eq!(
        err[0].message,
        "same matcher as rule 1 (priority 10), which is terminal (accept); this rule can never fire"
    );
}

#[test]
fn equal_matcher_with_another_action_is_shadowed() {
    let rs = Ruleset::new(vec![Chain::new(
        "input",
        vec![rule(1, 10, tcp(443), Action::Drop), rule(2, 20, tcp(443), Action::Accept)],
        Policy::Drop,
    )]);
    let err = verify(&rs).unwrap_err();
    assert_eq!(err.len(), 1);
    assert_eq!(err[0].kind, LintKind::Shadowed);
    assert_eq!((err[0].rule, err[0].other_rule), (Some(RuleId(2)), Some(RuleId(1))));
}

#[test]
fn only_the_first_covering_rule_is_named() {
    let rs = Ruleset::new(vec![Chain::new(
        "input",
        vec![
            rule(1, 10, Matcher { protocol: Protocol::Tcp, ..Matcher::any() }, Action::Drop),
            rule(2, 20, Matcher::any(), Action::Reject),
            rule(3, 30, tcp(22), Action::Accept),
        ],
        Policy::Drop,
    )]);
    let err = verify(&rs).unwrap_err();
    let dead: Vec<(Option<RuleId>, Option<RuleId>)> = err.iter().map(|i| (i.rule, i.other_rule)).collect();
    assert_eq!(dead, vec![(Some(RuleId(3)), Some(RuleId(1)))]);
    assert_eq!(err[0].kind, LintKind::Unreachable);
}

#[test]
fn same_id_same_priority_is_not_a_collision() {
    let rs = Ruleset::new(vec![Chain::new(
        "input",
        vec![rule(1, 10, tcp(22), Action::Continue), rule(1, 10, tcp(22), Action::Continue)],
        Policy::Drop,
    )]);
    let err = verify(&rs).unwrap_err();
    let kinds: Vec<LintKind> = err.iter().map(|i| i.kind).collect();
    assert_eq!(kinds, vec![LintKind::DuplicateRuleId]);
}

#[test]
fn issue_text_without_rules() {
    let issue = LintIssue {
        kind: LintKind::DuplicateChain,
        chain: Some("input".into()),
        rule: None,
        other_rule: None,
        message: "m".into(),
    };
    assert_eq!(issue.to_string(), "[duplicate chain name] chain `input` m");
    assert_eq!(LintKind::PriorityCollision.to_string(), "priority collision");
}

#[test]
fn chain_lint_appends_after_what_is_there() {
    let earlier = LintIssue {
        kind: LintKind::DuplicateChain,
        chain: Some("other".into()),
        rule: None,
        other_rule: None,
        message: "kept".into(),
    };
    let mut issues = vec![earlier.clone()];
    let chain = Chain::new(
        "input",
        vec![
            rule(1, 10, tcp(22), Action::Accept),
            rule(2, 10, tcp(80), Action::RateLimit(ShapingPolicy::pps(1, 1))),
            rule(3, 10, tcp(80), Action::Accept),
        ],
        Policy::Drop,
    );
    lint_chain(&chain, &mut issues);
    assert_eq!(issues.len(), 2);
    assert_eq!(issues[0], earlier);
    assert_eq!(issues[1].kind, LintKind::PriorityCollision);
    assert_eq!(issues[1].chain.as_deref(), Some("input"));
    assert_eq!((issues[1].rule, issues[1].other_rule), (Some(RuleId(2)), Some(RuleId(3))));
    // A clean chain appends nothing.
    let clean = Chain::new("fwd", vec![rule(7, 1, tcp(22), Action::Accept)], Policy::Drop);
    lint_chain(&clean, &mut issues);
    assert_eq!(issues.len(), 2);
}

#[test]
fn each_ruleset_problem_is_reported_exactly_when_present() {
    let kinds = |rs: &Ruleset| -> Vec<LintKind> {
        match verify(rs) {
            Ok(()) => vec![],
            Err(v) => v.iter().map(|i| i.kind).collect(),
        }
    };
    let clean = |version: u64| Ruleset {
        version,
        chains: vec![
            Chain::new("a", vec![rule(1, 1, tcp(22), Action::Accept)], Policy::Drop),
            Chain::new("b", vec![rule(2, 1, tcp(22), Action::Accept)], Policy::Drop),
        ],
    };
    assert_eq!(kinds(&clean(1)), vec![]);
    assert_eq!(kinds(&clean(2)), vec![LintKind::UnsupportedVersion]);
    // The same id in two chains, three times over: one issue per repeat.
    let ids = Ruleset::new(vec![
        Chain::new("a", vec![rule(4, 1, tcp(22), Action::Accept), rule(4, 2, tcp(23), Action::Accept)], Policy::Drop),
        Chain::new("b", vec![rule(4, 1, tcp(22), Action::Accept)], Policy::Drop),
    ]);
    assert_eq!(kinds(&ids), vec![LintKind::DuplicateRuleId, LintKind::DuplicateRuleId]);
    let names = Ruleset::new(vec![
        Chain::new("a", vec![], Policy::Drop),
        Chain::new("b", vec![], Policy::Drop),
        Chain::new("a", vec![], Policy::Drop),
    ]);
    let err = verify(&names).unwrap_err();
    assert_eq!(err.len(), 1);
    assert_eq!(err[0].kind, LintKind::DuplicateChain);
    assert_eq!(err[0].chain.as_deref(), Some("a"));
}
