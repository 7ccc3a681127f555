//! The ruleset / chain containers, the schema version and rule diffs.

use vstd::prelude::*;

use crate::action::Policy;
use crate::rule::{Rule, RuleId};

verus! {

/// Current schema version written by this crate. Rulesets with a newer
/// version are refused by `verify`.
pub const SCHEMA_VERSION: u64 = 1;

/// A complete, versioned set of chains to install in the dataplane.
#[derive(Debug, PartialEq, Eq)]
pub struct Ruleset {
    /// Schema version; must not exceed [`SCHEMA_VERSION`] to verify.
    pub version: u64,
    /// Named chains, in declaration order.
    pub chains: Vec<Chain>,
}

/// A named list of rules evaluated as a unit, in priority order.
#[derive(Debug, PartialEq, Eq)]
pub struct Chain {
    /// Chain name (e.g. `input`, `forward`); unique in a ruleset.
    pub name: String,
    /// Rules, evaluated by ascending priority (ties are a lint error).
    pub rules: Vec<Rule>,
    /// Policy applied when no rule matches.
    pub default_policy: Policy,
}

/// The value of a chain: its name, rule sequence and default policy.
pub struct ChainModel {
    /// Chain name.
    pub name: String,
    /// Rules in declaration order.
    pub rules: Seq<Rule>,
    /// Policy applied when no rule matches.
    pub default_policy: Policy,
}

/// The value of a ruleset: its version and chain values.
pub struct RulesetModel {
    /// Schema version.
    pub version: u64,
    /// Chains in declaration order.
    pub chains: Seq<ChainModel>,
}

impl View for Chain {
    type V = ChainModel;

    open spec fn view(&self) -> ChainModel {
        ChainModel { name: self.name, rules: self.rules@, default_policy: self.default_policy }
    }
}

impl View for Ruleset {
    type V = RulesetModel;

    open spec fn view(&self) -> RulesetModel {
        RulesetModel { version: self.version, chains: self.chains@.map_values(|c: Chain| c@) }
    }
}

impl Clone for Chain {
    fn clone(&self) -> (r: Self)
        ensures
            r@ == self@,
    {
        let rules = self.rules.clone();
        assert(rules@ =~= self.rules@);
        Chain { name: self.name.clone(), rules, default_policy: self.default_policy }
    }
}

impl Clone for Ruleset {
    fn clone(&self) -> (r: Self)
        ensures
            r@ == self@,
    {
        let chains = self.chains.clone();
        proof {
            assert forall|i: int| 0 <= i < chains@.len() implies chains@[i]@ == self.chains@[i]@ by {
                assert(cloned::<Chain>(self.chains@[i], chains@[i]));
            }
        }
        assert(chains@.map_values(|c: Chain| c@) =~= self.chains@.map_values(|c: Chain| c@));
        Ruleset { version: self.version, chains }
    }
}

/// Every (chain, rule) pair of `chains`, chain by chain in declaration order.
pub open spec fn chain_rule_pairs(chains: Seq<Chain>) -> Seq<(Chain, Rule)>
    decreases chains.len(),
{
    if chains.len() == 0 {
        Seq::empty()
    } else {
        let last = chains.last();
        chain_rule_pairs(chains.drop_last()) + last.rules@.map_values(|r: Rule| (last, r))
    }
}

/// The pairs a list of borrowed (chain, rule) pairs refers to.
pub open spec fn deref_pairs<'a>(v: Seq<(&'a Chain, &'a Rule)>) -> Seq<(Chain, Rule)> {
    v.map_values(|p: (&'a Chain, &'a Rule)| (*p.0, *p.1))
}

impl Default for Ruleset {
    /// An empty ruleset at the current schema version.
    fn default() -> (r: Self)
        ensures
            r.version == SCHEMA_VERSION,
            r.chains@.len() == 0,
    {
        Ruleset { version: SCHEMA_VERSION, chains: Vec::new() }
    }
}

impl Ruleset {
    /// A ruleset at the current schema version holding `chains`.
    pub fn new(chains: Vec<Chain>) -> (r: Self)
        ensures
            r.version == SCHEMA_VERSION,
            r.chains == chains,
    {
        Ruleset { version: SCHEMA_VERSION, chains }
    }

    /// Every rule with its chain, in declaration order (chain order, then
    /// each chain's rules as written; priority order is not applied).
    pub fn iter_rules(&self) -> (v: Vec<(&Chain, &Rule)>)
        ensures
            deref_pairs(v@) == chain_rule_pairs(self.chains@),
    {
        let mut v: Vec<(&Chain, &Rule)> = Vec::new();
        let mut ci: usize = 0;
        while ci < self.chains.len()
            invariant
                ci <= self.chains@.len(),
                deref_pairs(v@) == chain_rule_pairs(self.chains@.take(ci as int)),
            decreases self.chains@.len() - ci,
        {
            let chain = &self.chains[ci];
            let mut ri: usize = 0;
            let ghost before = deref_pairs(v@);
            while ri < chain.rules.len()
                invariant
                    ci < self.chains@.len(),
                    chain == self.chains@[ci as int],
                    ri <= chain.rules@.len(),
                    before == chain_rule_pairs(self.chains@.take(ci as int)),
                    deref_pairs(v@) == before + chain.rules@.take(ri as int).map_values(|r: Rule| (*chain, r)),
                decreases chain.rules@.len() - ri,
            {
                let ghost old_v = v@;
                v.push((chain, &chain.rules[ri]));
                proof {
                    let x = (*chain, chain.rules@[ri as int]);
                    let a = chain.rules@.take(ri as int).map_values(|r: Rule| (*chain, r));
                    assert(deref_pairs(v@) =~= deref_pairs(old_v).push(x));
                    assert(chain.rules@.take(ri + 1).map_values(|r: Rule| (*chain, r)) =~= a.push(x));
                    assert((before + a).push(x) =~= before + a.push(x));
                }
                ri = ri + 1;
            }
            proof {
                assert(chain.rules@.take(ri as int) =~= chain.rules@);
                assert(self.chains@.take(ci + 1).drop_last() =~= self.chains@.take(ci as int));
            }
            ci = ci + 1;
        }
        assert(self.chains@.take(ci as int) =~= self.chains@);
        v
    }
}

impl Chain {
    /// A chain with an explicit default policy.
    pub fn new(name: &str, rules: Vec<Rule>, default_policy: Policy) -> (c: Self)
        ensures
            c.name@ == name@,
            c.rules == rules,
            c.default_policy == default_policy,
    {
        Chain { name: String::from_str(name), rules, default_policy }
    }
}

/// A change set between the installed and the desired rules.
#[derive(Debug, PartialEq, Eq)]
pub struct RulesetDiff {
    /// Rules to add.
    pub add: Vec<Rule>,
    /// Rules to replace in place.
    pub update: Vec<Rule>,
    /// Rule ids to remove.
    pub remove: Vec<RuleId>,
}

impl Default for RulesetDiff {
    /// The empty diff.
    fn default() -> (d: Self)
        ensures
            d.add@.len() == 0,
            d.update@.len() == 0,
            d.remove@.len() == 0,
    {
        RulesetDiff { add: Vec::new(), update: Vec::new(), remove: Vec::new() }
    }
}

impl RulesetDiff {
    /// Whether the diff changes nothing.
    pub fn is_empty(&self) -> (r: bool)
        ensures
            r == (self.add@.len() == 0 && self.update@.len() == 0 && self.remove@.len() == 0),
    {
        self.add.len() == 0 && self.update.len() == 0 && self.remove.len() == 0
    }

    /// Total number of changes (adds + updates + removes).
    pub fn len(&self) -> (n: usize)
        requires
            self.add@.len() + self.update@.len() + self.remove@.len() <= usize::MAX,
        ensures
            n == self.add@.len() + self.update@.len() + self.remove@.len(),
    {
        self.add.len() + self.update.len() + self.remove.len()
    }
}

} // verus!
