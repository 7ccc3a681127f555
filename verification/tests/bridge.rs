//! Priority-ordering a ruleset for a declaration-order dataplane.

use portcullis::bridge::desired_netctl_ruleset;
use portcullis::{Action, Chain, Matcher, Policy, Rule, RuleId, Ruleset};

fn rule(id: u64, priority: u32) -> Rule {
    Rule {
        id: RuleId(id),
        priority,
        matcher: Matcher::any(),
        action: Action::Continue,
        description: None,
    }
}

fn ids(rs: &Ruleset, chain: usize) -> Vec<u64> {
    rs.chains[chain].rules.iter().map(|r| r.id.0).collect()
}

#[test]
fn sorts_each_chain_stably_by_priority() {
    let rs = Ruleset::new(vec![
        Chain::new("a", vec![rule(1, 30), rule(2, 10), rule(3, 20), rule(4, 10)], Policy::Drop),
        Chain::new("b", vec![rule(9, 5)], Policy::Accept),
    ]);
    let out = desired_netctl_ruleset(&rs);
    assert_eq!(ids(&out, 0), vec![2, 4, 3, 1]);
    assert_eq!(ids(&out, 1), vec![9]);
    assert_eq!(out.chains[0].name, "a");
    assert_eq!(out.chains[1].default_policy, Policy::Accept);
    assert_eq!(out.version, rs.version);
    // The input is unchanged.
    assert_eq!(ids(&rs, 0), vec![1, 2, 3, 4]);
}

#[test]
fn ordering_twice_changes_nothing() {
    let rs = Ruleset::new(vec![Chain::new(
        "a",
        vec![rule(1, 3), rule(2, 1), rule(3, 2), rule(4, 1)],
        Policy::Drop,
    )]);
    let once = desired_netctl_ruleset(&rs);
    let twice = desired_netctl_ruleset(&once);
    assert_eq!(once, twice);
}
