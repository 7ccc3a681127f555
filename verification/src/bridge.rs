//! Priority-ordering a verified ruleset for a dataplane that evaluates
//! rules in declaration order.
//!
//! Rules carry an explicit priority (lower runs first); a declaration-order
//! backend needs each chain's rules listed in that order. The result has
//! each chain's rules in evaluation order (see [`crate::order`]): by
//! priority, ties kept in declaration order.

use vstd::prelude::*;

use crate::lint::evaluation_sequence;
use crate::order::evaluation_order_of;
use crate::rule::Rule;
use crate::ruleset::{Chain, ChainModel, Ruleset, RulesetModel};

verus! {

/// A chain with its rules listed in evaluation order.
pub open spec fn desired_chain(c: ChainModel) -> ChainModel {
    ChainModel { name: c.name, rules: evaluation_sequence(c), default_policy: c.default_policy }
}

/// A ruleset with every chain's rules listed in evaluation order.
pub open spec fn desired_ruleset(rs: RulesetModel) -> RulesetModel {
    RulesetModel { version: rs.version, chains: rs.chains.map_values(|c: ChainModel| desired_chain(c)) }
}

fn sorted_chain(chain: &Chain) -> (r: Chain)
    ensures
        r@ == desired_chain(chain@),
{
    let ord = evaluation_order_of(&chain.rules);
    let ghost s = evaluation_sequence(chain@);
    let mut rules: Vec<Rule> = Vec::new();
    let mut k: usize = 0;
    while k < ord.len()
        invariant
            k <= ord@.len() == s.len() == chain.rules@.len(),
            ord@ == crate::order::evaluation_order(crate::order::priorities(chain.rules@)),
            crate::order::is_evaluation_order(crate::order::priorities(chain.rules@), ord@),
            s == evaluation_sequence(chain@),
            rules@ == s.take(k as int),
        decreases ord@.len() - k,
    {
        assert(ord@[k as int] < chain.rules@.len());
        rules.push(chain.rules[ord[k]].clone());
        assert(rules@ =~= s.take(k + 1));
        k = k + 1;
    }
    assert(s.take(k as int) =~= s);
    Chain { name: chain.name.clone(), rules, default_policy: chain.default_policy }
}

/// A copy of `rs` with each chain's rules sorted by priority (stable);
/// `rs` itself is unchanged.
pub fn desired_netctl_ruleset(rs: &Ruleset) -> (out: Ruleset)
    ensures
        out@ == desired_ruleset(rs@),
{
    let mut chains: Vec<Chain> = Vec::new();
    let mut i: usize = 0;
    while i < rs.chains.len()
        invariant
            i <= rs.chains@.len(),
            chains@.len() == i,
            forall|k: int| 0 <= k < i ==> (#[trigger] chains@[k])@ == desired_chain(rs.chains@[k]@),
        decreases rs.chains@.len() - i,
    {
        chains.push(sorted_chain(&rs.chains[i]));
        i = i + 1;
    }
    let out = Ruleset { version: rs.version, chains };
    assert(out@.chains =~= desired_ruleset(rs@).chains);
    out
}

} // verus!
