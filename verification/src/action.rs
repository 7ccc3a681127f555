//! Action and default-policy enums for a rule / chain.

use vstd::prelude::*;

use crate::nat_rule::NatRule;
use crate::shaping::ShapingPolicy;

verus! {

/// What to do when a rule's matcher succeeds.
#[derive(Debug, PartialEq, Eq)]
pub enum Action {
    /// Accept the packet (stop evaluation, let it through).
    Accept,
    /// Drop the packet silently.
    Drop,
    /// Reject with an ICMP/TCP reset (notify the sender).
    Reject,
    /// Address and/or port rewriting (SNAT/DNAT/masquerade).
    Nat(NatRule),
    /// Rate-limit matching traffic.
    RateLimit(ShapingPolicy),
    /// Jump to another named chain; control returns afterwards.
    Jump(String),
    /// Continue to the next rule without terminating evaluation.
    Continue,
}

impl Action {
    /// Whether this action ends evaluation of the chain.
    pub open spec fn spec_is_terminal(&self) -> bool {
        self is Accept || self is Drop || self is Reject
    }

    /// Returns `true` if this action terminates packet evaluation for the
    /// chain. `Jump` is not terminal: the target chain may return control.
    pub fn is_terminal(&self) -> (r: bool)
        ensures
            r == self.spec_is_terminal(),
    {
        match self {
            Action::Accept | Action::Drop | Action::Reject => true,
            _ => false,
        }
    }
}

impl Clone for Action {
    fn clone(&self) -> (r: Self)
        ensures
            r == *self,
    {
        match self {
            Action::Accept => Action::Accept,
            Action::Drop => Action::Drop,
            Action::Reject => Action::Reject,
            Action::Nat(n) => Action::Nat(n.clone()),
            Action::RateLimit(p) => Action::RateLimit(p.clone()),
            Action::Jump(s) => Action::Jump(s.clone()),
            Action::Continue => Action::Continue,
        }
    }
}

/// Default action for a chain when no rule matches.
#[derive(Debug, Clone, Copy, PartialEq, Eq, Structural)]
pub enum Policy {
    /// Accept unmatched traffic.
    Accept,
    /// Drop unmatched traffic.
    Drop,
    /// Reject unmatched traffic.
    Reject,
}

impl Policy {
    /// The equivalent terminal action for this policy.
    pub fn to_action(self) -> (a: Action)
        ensures
            a == (match self {
                Policy::Accept => Action::Accept,
                Policy::Drop => Action::Drop,
                Policy::Reject => Action::Reject,
            }),
    {
        match self {
            Policy::Accept => Action::Accept,
            Policy::Drop => Action::Drop,
            Policy::Reject => Action::Reject,
        }
    }
}

} // verus!
