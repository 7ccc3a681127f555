//! Rule identity and the per-rule record.

use vstd::prelude::*;

use crate::action::Action;
use crate::matcher::Matcher;
use crate::text::{decimal, decimal_string};

verus! {

/// Stable identifier for a rule; unique across a ruleset (checked by
/// `verify`).
#[derive(Debug, Clone, Copy, PartialEq, Eq, Hash, PartialOrd, Ord, Structural)]
pub struct RuleId(pub u64);

impl RuleId {
    /// The id as decimal text.
    pub fn to_string(&self) -> (s: String)
        ensures
            s@ == decimal(self.0 as nat),
    {
        decimal_string(self.0)
    }
}

/// A single filtering/NAT/rate-limit rule.
#[derive(Debug, PartialEq, Eq)]
pub struct Rule {
    /// Stable identifier used for counters and diffing.
    pub id: RuleId,
    /// Evaluation priority within the chain: lower runs first.
    pub priority: u32,
    /// Conditions that must all match for the rule to fire.
    pub matcher: Matcher,
    /// What to do when the matcher matches.
    pub action: Action,
    /// Optional human-readable description.
    pub description: Option<String>,
}

impl Clone for Rule {
    fn clone(&self) -> (r: Self)
        ensures
            r == *self,
    {
        let description = match &self.description {
            Some(d) => Some(d.clone()),
            None => None,
        };
        Rule {
            id: self.id,
            priority: self.priority,
            matcher: self.matcher.clone(),
            action: self.action.clone(),
            description,
        }
    }
}

} // verus!
