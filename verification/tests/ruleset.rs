//! Ruleset containers, rule diffs, and the action / NAT / shaping helpers.

use portcullis::{
    Action, Chain, Matcher, NatRule, NatType, Policy, RateUnit, Rule, RuleId, Ruleset,
    RulesetDiff, ShapingPolicy, TranslationTarget, SCHEMA_VERSION,
};

fn rule(id: u64, priority: u32) -> Rule {
    Rule {
        id: RuleId(id),
        priority,
        matcher: Matcher::any(),
        action: Action::Accept,
        description: None,
    }
}

#[test]
fn new_and_default_use_current_schema() {
    assert_eq!(Ruleset::default().version, SCHEMA_VERSION);
    assert!(Ruleset::default().chains.is_empty());
    let rs = Ruleset::new(vec![Chain::new("input", vec![], Policy::Drop)]);
    assert_eq!(rs.version, 1);
    assert_eq!(rs.chains[0].name, "input");
    assert_eq!(rs.chains[0].default_policy, Policy::Drop);
}

#[test]
fn iter_rules_walks_declaration_order() {
    let rs = Ruleset::new(vec![
        Chain::new("a", vec![rule(3, 30), rule(1, 10)], Policy::Drop),
        Chain::new("b", vec![], Policy::Accept),
        Chain::new("c", vec![rule(7, 5)], Policy::Accept),
    ]);
    let pairs = rs.iter_rules();
    let seen: Vec<(&str, u64)> = pairs.iter().map(|(c, r)| (c.name.as_str(), r.id.0)).collect();
    assert_eq!(seen, vec![("a", 3), ("a", 1), ("c", 7)]);
}

#[test]
fn ruleset_diff_counts() {
    let diff = RulesetDiff {
        add: vec![rule(10, 10)],
        update: vec![],
        remove: vec![RuleId(3), RuleId(4)],
    };
    assert!(!diff.is_empty());
    assert_eq!(diff.len(), 3);
    assert!(RulesetDiff::default().is_empty());
    assert_eq!(RulesetDiff::default().len(), 0);
}

#[test]
fn terminal_actions_and_policies() {
    assert!(Action::Accept.is_terminal());
    assert!(Action::Drop.is_terminal());
    assert!(Action::Reject.is_terminal());
    assert!(!Action::Jump("log".into()).is_terminal());
    assert!(!Action::Continue.is_terminal());
    assert!(!Action::Nat(NatRule::masquerade()).is_terminal());
    assert!(!Action::RateLimit(ShapingPolicy::pps(1, 2)).is_terminal());
    assert_eq!(Policy::Accept.to_action(), Action::Accept);
    assert_eq!(Policy::Drop.to_action(), Action::Drop);
    assert_eq!(Policy::Reject.to_action(), Action::Reject);
}

#[test]
fn nat_and_shaping_helpers() {
    let s = NatRule::snat("192.0.2.1");
    assert_eq!(s.nat_type, NatType::Snat);
    assert_eq!(s.to.address.as_deref(), Some("192.0.2.1"));
    assert_eq!(s.to.port, None);
    assert_eq!(s.remark, None);
    let d = NatRule::dnat("198.51.100.10");
    assert_eq!(d.nat_type, NatType::Dnat);
    assert_eq!(d.to.address.as_deref(), Some("198.51.100.10"));
    let m = NatRule::masquerade();
    assert_eq!(m.nat_type, NatType::Masquerade);
    assert_eq!(m.to, TranslationTarget::default());
    let p = ShapingPolicy::pps(100, 200);
    assert_eq!((p.rate, p.burst, p.unit, p.remark), (100, 200, RateUnit::PacketsPerSecond, None));
}

#[test]
fn rule_id_text() {
    assert_eq!(RuleId(42).to_string(), "42");
}
