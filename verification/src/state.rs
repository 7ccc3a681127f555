//! Apply bookkeeping: the outcome record of an apply, the errors of the
//! dataplane bridge, and the state the daemon keeps between applies.

use vstd::prelude::*;

use crate::ruleset::{chain_rule_pairs, Ruleset, RulesetModel};

verus! {

/// Errors from bridging / applying (each carries the backend's message).
#[derive(Debug, PartialEq, Eq)]
pub enum BridgeError {
    /// The dataplane rejected the diff during validate.
    Validate(String),
    /// The dataplane apply failed.
    Apply(String),
    /// Could not connect to the dataplane backend.
    Connect(String),
}

impl BridgeError {
    /// The error's text.
    pub open spec fn text(self) -> Seq<char> {
        match self {
            BridgeError::Validate(m) => "netctl validate failed: "@ + m@,
            BridgeError::Apply(m) => "netctl apply failed: "@ + m@,
            BridgeError::Connect(m) => "failed to connect dataplane backend: "@ + m@,
        }
    }

    /// The error's text.
    pub fn to_string(&self) -> (s: String)
        ensures
            s@ == self.text(),
    {
        match self {
            BridgeError::Validate(m) => {
                let mut s = String::from_str("netctl validate failed: ");
                s.append(m.as_str());
                s
            },
            BridgeError::Apply(m) => {
                let mut s = String::from_str("netctl apply failed: ");
                s.append(m.as_str());
                s
            },
            BridgeError::Connect(m) => {
                let mut s = String::from_str("failed to connect dataplane backend: ");
                s.append(m.as_str());
                s
            },
        }
    }
}

/// Result of a successful apply (for status reporting).
#[derive(Debug, Clone, Copy, PartialEq, Eq, Structural)]
pub struct ApplyOutcome {
    /// Schema version of the ruleset that was applied.
    pub version: u64,
    /// Number of chains in the applied ruleset.
    pub chains: usize,
    /// Number of rules in the applied ruleset.
    pub rules: usize,
    /// How many changes the dataplane planned (the diff's length).
    pub planned_changes: usize,
}

/// The outcome of applying `rs` with `planned` changes.
pub open spec fn spec_apply_outcome(rs: Ruleset, planned: usize) -> ApplyOutcome {
    ApplyOutcome {
        version: rs.version,
        chains: rs.chains@.len() as usize,
        rules: chain_rule_pairs(rs.chains@).len() as usize,
        planned_changes: planned,
    }
}

/// The outcome record of applying `ruleset` with `planned_changes` changes:
/// its version, its chain count and its rule count.
pub fn apply_outcome(ruleset: &Ruleset, planned_changes: usize) -> (o: ApplyOutcome)
    ensures
        o == spec_apply_outcome(*ruleset, planned_changes),
        o.version == ruleset.version,
        o.planned_changes == planned_changes,
        o.chains == ruleset.chains@.len(),
        o.rules == chain_rule_pairs(ruleset.chains@).len(),
{
    let pairs = ruleset.iter_rules();
    proof {
        assert(pairs@.len() == chain_rule_pairs(ruleset.chains@).len());
    }
    ApplyOutcome {
        version: ruleset.version,
        chains: ruleset.chains.len(),
        rules: pairs.len(),
        planned_changes,
    }
}

/// What the daemon keeps between applies: the last ruleset applied and the
/// outcome of that apply.
pub struct AppliedState {
    rules: Option<Ruleset>,
    last_apply: Option<ApplyOutcome>,
}

impl AppliedState {
    /// The ruleset of the last successful apply, if any.
    pub closed spec fn current(self) -> Option<RulesetModel> {
        match self.rules {
            Some(r) => Some(r@),
            None => None,
        }
    }

    /// The outcome of the last successful apply, if any.
    pub closed spec fn last(self) -> Option<ApplyOutcome> {
        self.last_apply
    }

    /// Nothing applied yet.
    pub fn new() -> (s: Self)
        ensures
            s.current() is None,
            s.last() is None,
    {
        AppliedState { rules: None, last_apply: None }
    }

    /// Record a successful apply of `ruleset` with `outcome`.
    pub fn record(&mut self, ruleset: &Ruleset, outcome: ApplyOutcome)
        ensures
            final(self).current() == Some(ruleset@),
            final(self).last() == Some(outcome),
    {
        self.rules = Some(ruleset.clone());
        self.last_apply = Some(outcome);
    }

    /// Settle an apply attempt of `ruleset`. When the dataplane applied it
    /// (planning `planned` changes), record the ruleset with its outcome
    /// and return the outcome; when it failed, keep the previous state and
    /// return the error.
    pub fn settle(&mut self, ruleset: &Ruleset, applied: Result<usize, BridgeError>) -> (r: Result<
        ApplyOutcome,
        BridgeError,
    >)
        ensures
            match applied {
                Ok(planned) => {
                    &&& r == Ok::<ApplyOutcome, BridgeError>(spec_apply_outcome(*ruleset, planned))
                    &&& final(self).current() == Some(ruleset@)
                    &&& final(self).last() == Some(spec_apply_outcome(*ruleset, planned))
                },
                Err(e) => {
                    &&& r == Err::<ApplyOutcome, BridgeError>(e)
                    &&& final(self).current() == old(self).current()
                    &&& final(self).last() == old(self).last()
                },
            },
    {
        match applied {
            Ok(planned) => {
                let outcome = apply_outcome(ruleset, planned);
                self.record(ruleset, outcome);
                Ok(outcome)
            },
            Err(e) => Err(e),
        }
    }

    /// The currently held ruleset, if any (a copy).
    pub fn current_ruleset(&self) -> (r: Option<Ruleset>)
        ensures
            match r {
                Some(rs) => self.current() == Some(rs@),
                None => self.current() is None,
            },
    {
        match &self.rules {
            Some(rs) => Some(rs.clone()),
            None => None,
        }
    }

    /// The outcome of the last apply, if any.
    pub fn last_apply(&self) -> (r: Option<ApplyOutcome>)
        ensures
            r == self.last(),
    {
        self.last_apply
    }
}

} // verus!
