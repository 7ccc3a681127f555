//! Backend-independent rule model for a packet-filtering firewall/router,
//! with a verified lint pass, plus the pure parts of the daemon and CLI that
//! drive it.
//!
//! Consumers must not hand a [`Ruleset`] to a dataplane backend when
//! [`verify`] reports issues.

pub mod action;
pub mod bridge;
pub mod cli;
pub mod config;
pub mod control;
pub mod addr;
pub mod laws;
pub mod lint;
pub mod matcher;
pub mod order;
pub mod privd;
pub mod rule;
pub mod ruleset;
pub mod shaping;
pub mod state;
pub mod text;
pub mod nat_rule;

pub use action::{Action, Policy};
pub use addr::IpAddr;
pub use lint::{verify, LintIssue, LintKind};
pub use matcher::{
    AddressMatcher, InterfaceMatcher, IpVersion, Matcher, Packet, PortMatcher, PortRange, Protocol,
};
pub use rule::{Rule, RuleId};
pub use ruleset::{Chain, Ruleset, RulesetDiff, SCHEMA_VERSION};
pub use shaping::{RateUnit, ShapingPolicy};
pub use nat_rule::{NatRule, NatType, TranslationTarget};
