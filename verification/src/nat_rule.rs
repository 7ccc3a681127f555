//! NAT rule shapes carried by `Action::Nat`.

use vstd::prelude::*;

verus! {

/// Kind of address rewriting.
#[derive(Debug, Clone, Copy, PartialEq, Eq, Structural)]
pub enum NatType {
    /// Rewrite the source address of matching packets.
    Snat,
    /// Rewrite the destination address of matching packets.
    Dnat,
    /// Rewrite the source address to the egress interface's address.
    Masquerade,
}

/// A rewrite target: optional address and optional port rewrite.
///
/// `None` on either field means "leave unchanged".
#[derive(Debug, PartialEq, Eq)]
pub struct TranslationTarget {
    /// Replacement address (e.g. `192.0.2.1` or `2001:db8::1`).
    pub address: Option<String>,
    /// Replacement port (applies to TCP/UDP).
    pub port: Option<u16>,
}

impl Default for TranslationTarget {
    /// The target that leaves both address and port unchanged.
    fn default() -> (t: Self)
        ensures
            t.address is None,
            t.port is None,
    {
        TranslationTarget { address: None, port: None }
    }
}

impl Clone for TranslationTarget {
    fn clone(&self) -> (r: Self)
        ensures
            r == *self,
    {
        let address = match &self.address {
            Some(a) => Some(a.clone()),
            None => None,
        };
        TranslationTarget { address, port: self.port }
    }
}

/// A single NAT rule attached to `Action::Nat`.
#[derive(Debug, PartialEq, Eq)]
pub struct NatRule {
    /// Which rewrite to perform.
    pub nat_type: NatType,
    /// What to rewrite to (address and/or port).
    pub to: TranslationTarget,
    /// Optional remark carried alongside the rule for operators/logs.
    pub remark: Option<String>,
}

impl Clone for NatRule {
    fn clone(&self) -> (r: Self)
        ensures
            r == *self,
    {
        let remark = match &self.remark {
            Some(a) => Some(a.clone()),
            None => None,
        };
        NatRule { nat_type: self.nat_type, to: self.to.clone(), remark }
    }
}

impl NatRule {
    /// Source NAT to a fixed address.
    pub fn snat(address: &str) -> (r: Self)
        ensures
            r.nat_type == NatType::Snat,
            r.to.address matches Some(a) && a@ == address@,
            r.to.port is None,
            r.remark is None,
    {
        NatRule {
            nat_type: NatType::Snat,
            to: TranslationTarget { address: Some(String::from_str(address)), port: None },
            remark: None,
        }
    }

    /// Destination NAT to a fixed address.
    pub fn dnat(address: &str) -> (r: Self)
        ensures
            r.nat_type == NatType::Dnat,
            r.to.address matches Some(a) && a@ == address@,
            r.to.port is None,
            r.remark is None,
    {
        NatRule {
            nat_type: NatType::Dnat,
            to: TranslationTarget { address: Some(String::from_str(address)), port: None },
            remark: None,
        }
    }

    /// Masquerade out the egress interface (no fixed target).
    pub fn masquerade() -> (r: Self)
        ensures
            r.nat_type == NatType::Masquerade,
            r.to.address is None,
            r.to.port is None,
            r.remark is None,
    {
        NatRule { nat_type: NatType::Masquerade, to: TranslationTarget::default(), remark: None }
    }
}

} // verus!
