//! The matcher vocabulary: protocol, address, port, interface.
//!
//! All fields of a [`Matcher`] are AND-ed: a packet matches only if every
//! field matches. A field set to `Any` is a wildcard. There is no OR
//! combinator; several rules with the same action express OR.
//!
//! `is_superset_of` and `overlaps` are the decisions the lint pass rests
//! on; [`crate::laws`] states what they guarantee about the packets each
//! matcher admits (`*_admits` below).

use vstd::prelude::*;

use crate::addr::{
    addr_le, addr_le_exec, cidr_bounds, cidr_bounds_exec, in_cidr, in_cidr_exec, in_range, in_range_exec,
    same_family, IpAddr,
};

verus! {

/// IP protocol / next-header matcher.
#[derive(Debug, Clone, Copy, PartialEq, Eq, Structural)]
pub enum Protocol {
    /// Match any protocol (wildcard).
    Any,
    /// TCP.
    Tcp,
    /// UDP.
    Udp,
    /// ICMP (v4).
    Icmp,
    /// ICMPv6.
    Icmpv6,
    /// Explicit next-header / IP protocol number.
    Number(u8),
}

impl Default for Protocol {
    /// The wildcard.
    fn default() -> (p: Self)
        ensures
            p == Protocol::Any,
    {
        Protocol::Any
    }
}

/// Which IP address family an address matcher applies to.
#[derive(Debug, Clone, Copy, PartialEq, Eq, Structural)]
pub enum IpVersion {
    /// IPv4 only.
    V4,
    /// IPv6 only.
    V6,
}

/// Address matcher: single IP, CIDR block, inclusive range, or any.
#[derive(Debug, Clone, Copy, PartialEq, Eq, Structural)]
pub enum AddressMatcher {
    /// Match any address (wildcard).
    Any,
    /// A single IP address.
    Single(IpAddr),
    /// CIDR block: network address + prefix length.
    Cidr {
        /// Network address.
        addr: IpAddr,
        /// Prefix length (0..=32 for v4, 0..=128 for v6).
        prefix: u8,
    },
    /// Inclusive address range (both endpoints of one family).
    Range {
        /// Start address (inclusive).
        start: IpAddr,
        /// End address (inclusive).
        end: IpAddr,
    },
}

impl Default for AddressMatcher {
    /// The wildcard.
    fn default() -> (m: Self)
        ensures
            m == AddressMatcher::Any,
    {
        AddressMatcher::Any
    }
}

impl AddressMatcher {
    /// The addresses this matcher admits.
    pub open spec fn admits(self, x: IpAddr) -> bool {
        match self {
            AddressMatcher::Any => true,
            AddressMatcher::Single(a) => x == a,
            AddressMatcher::Cidr { addr, prefix } => in_cidr(x, addr, prefix),
            AddressMatcher::Range { start, end } => in_range(x, start, end),
        }
    }

    /// A range's endpoints are of one family (the documented requirement).
    pub open spec fn well_formed(self) -> bool {
        match self {
            AddressMatcher::Range { start, end } => same_family(start, end),
            _ => true,
        }
    }

    /// Every block's prefix is within its family's width, and every range
    /// is of one family with its start not after its end: each such
    /// matcher admits at least one address.
    pub open spec fn is_valid(self) -> bool {
        match self {
            AddressMatcher::Cidr { addr, prefix } => prefix <= addr.bits(),
            AddressMatcher::Range { start, end } => same_family(start, end) && addr_le(start, end),
            _ => true,
        }
    }

    /// The superset decision, case by case.
    pub open spec fn spec_is_superset_of(self, other: Self) -> bool {
        match self {
            AddressMatcher::Any => true,
            AddressMatcher::Single(a) => match other {
                AddressMatcher::Any => false,
                AddressMatcher::Single(b) => a == b,
                AddressMatcher::Range { start, end } => start == a && end == a,
                AddressMatcher::Cidr { addr, prefix } => prefix == addr.bits() && in_cidr(a, addr, prefix),
            },
            AddressMatcher::Cidr { addr: a1, prefix: p1 } => match other {
                AddressMatcher::Any => false,
                AddressMatcher::Single(a) => in_cidr(a, a1, p1),
                AddressMatcher::Cidr { addr: a2, prefix: p2 } => p1 <= p2 && in_cidr(a2, a1, p1),
                AddressMatcher::Range { start, end } => in_cidr(start, a1, p1) && in_cidr(end, a1, p1),
            },
            AddressMatcher::Range { start: s1, end: e1 } => match other {
                AddressMatcher::Any => false,
                AddressMatcher::Single(a) => in_range(a, s1, e1),
                AddressMatcher::Range { start: s2, end: e2 } => addr_le(s1, s2) && addr_le(e2, e1),
                AddressMatcher::Cidr { addr, prefix } => match cidr_bounds(addr, prefix) {
                    Some((lo, hi)) => in_range(lo, s1, e1) && in_range(hi, s1, e1),
                    None => false,
                },
            },
        }
    }

    /// The overlap decision, case by case.
    pub open spec fn spec_overlaps(self, other: Self) -> bool {
        match (self, other) {
            (AddressMatcher::Any, _) => true,
            (_, AddressMatcher::Any) => true,
            (AddressMatcher::Single(a), AddressMatcher::Single(b)) => a == b,
            (AddressMatcher::Single(a), AddressMatcher::Range { start, end }) => in_range(a, start, end),
            (AddressMatcher::Range { start, end }, AddressMatcher::Single(a)) => in_range(a, start, end),
            (AddressMatcher::Single(a), AddressMatcher::Cidr { addr, prefix }) => in_cidr(a, addr, prefix),
            (AddressMatcher::Cidr { addr, prefix }, AddressMatcher::Single(a)) => in_cidr(a, addr, prefix),
            (AddressMatcher::Cidr { .. }, AddressMatcher::Cidr { .. }) =>
                self.spec_is_superset_of(other) || other.spec_is_superset_of(self),
            (AddressMatcher::Range { start: s1, end: e1 }, AddressMatcher::Range { start: s2, end: e2 }) =>
                addr_le(s1, e2) && addr_le(s2, e1),
            (AddressMatcher::Cidr { addr, prefix }, AddressMatcher::Range { start, end }) =>
                cidr_range_overlap(addr, prefix, start, end),
            (AddressMatcher::Range { start, end }, AddressMatcher::Cidr { addr, prefix }) =>
                cidr_range_overlap(addr, prefix, start, end),
        }
    }

    /// Returns `true` if every address of `other` is also matched by `self`.
    /// Conservative where the relationship is not decided exactly
    /// (mixed families, prefixes out of range): answers `false`. A single
    /// address covers a range or block only when that holds just this address.
    pub fn is_superset_of(&self, other: &Self) -> (r: bool)
        ensures
            r == self.spec_is_superset_of(*other),
            r && self.well_formed() ==> forall|x: IpAddr| #[trigger] other.admits(x) ==> self.admits(x),
            self.is_valid() && other.is_valid() && (forall|x: IpAddr| #[trigger] other.admits(x) ==> self.admits(x))
                ==> r,
    {
        proof {
            if self.is_valid() && other.is_valid() && (forall|x: IpAddr| #[trigger] other.admits(x) ==> self.admits(x)) {
                crate::laws::address_superset_is_complete(*self, *other);
            }
            if self.spec_is_superset_of(*other) && self.well_formed() {
                assert forall|x: IpAddr| #[trigger] other.admits(x) implies self.admits(x) by {
                    crate::laws::address_superset_is_sound(*self, *other, x);
                }
            }
        }
        match self {
            AddressMatcher::Any => true,
            AddressMatcher::Single(a) => match other {
                AddressMatcher::Any => false,
                AddressMatcher::Single(b) => *a == *b,
                AddressMatcher::Range { start, end } => *start == *a && *end == *a,
                AddressMatcher::Cidr { addr, prefix } => *prefix == addr.width() && in_cidr_exec(a, addr, *prefix),
            },
            AddressMatcher::Cidr { addr: a1, prefix: p1 } => match other {
                AddressMatcher::Any => false,
                AddressMatcher::Single(a) => in_cidr_exec(a, a1, *p1),
                AddressMatcher::Cidr { addr: a2, prefix: p2 } => *p1 <= *p2 && in_cidr_exec(a2, a1, *p1),
                AddressMatcher::Range { start, end } => in_cidr_exec(start, a1, *p1) && in_cidr_exec(end, a1, *p1),
            },
            AddressMatcher::Range { start: s1, end: e1 } => match other {
                AddressMatcher::Any => false,
                AddressMatcher::Single(a) => in_range_exec(a, s1, e1),
                AddressMatcher::Range { start: s2, end: e2 } => addr_le_exec(s1, s2) && addr_le_exec(e2, e1),
                AddressMatcher::Cidr { addr, prefix } => match cidr_bounds_exec(addr, *prefix) {
                    Some((lo, hi)) => in_range_exec(&lo, s1, e1) && in_range_exec(&hi, s1, e1),
                    None => false,
                },
            },
        }
    }

    /// Returns `true` if the two matchers can match at least one common address.
    pub fn overlaps(&self, other: &Self) -> (r: bool)
        ensures
            r == self.spec_overlaps(*other),
            forall|x: IpAddr| #[trigger] self.admits(x) && other.admits(x) ==> r,
            r && self.is_valid() && other.is_valid() ==> exists|x: IpAddr| self.admits(x) && other.admits(x),
    {
        proof {
            if self.spec_overlaps(*other) && self.is_valid() && other.is_valid() {
                crate::laws::address_overlap_is_sound(*self, *other);
            }
            assert forall|x: IpAddr| #[trigger] self.admits(x) && other.admits(x) implies self.spec_overlaps(
                *other,
            ) by {
                crate::laws::address_overlap_is_complete(*self, *other, x);
            }
        }
        match (self, other) {
            (AddressMatcher::Any, _) => true,
            (_, AddressMatcher::Any) => true,
            (AddressMatcher::Single(a), AddressMatcher::Single(b)) => *a == *b,
            (AddressMatcher::Single(a), AddressMatcher::Range { start, end }) => in_range_exec(a, start, end),
            (AddressMatcher::Range { start, end }, AddressMatcher::Single(a)) => in_range_exec(a, start, end),
            (AddressMatcher::Single(a), AddressMatcher::Cidr { addr, prefix }) => in_cidr_exec(a, addr, *prefix),
            (AddressMatcher::Cidr { addr, prefix }, AddressMatcher::Single(a)) => in_cidr_exec(a, addr, *prefix),
            (AddressMatcher::Cidr { .. }, AddressMatcher::Cidr { .. }) =>
                self.is_superset_of(other) || other.is_superset_of(self),
            (AddressMatcher::Range { start: s1, end: e1 }, AddressMatcher::Range { start: s2, end: e2 }) =>
                addr_le_exec(s1, e2) && addr_le_exec(s2, e1),
            (AddressMatcher::Cidr { addr, prefix }, AddressMatcher::Range { start, end }) =>
                cidr_range_overlap_exec(addr, *prefix, start, end),
            (AddressMatcher::Range { start, end }, AddressMatcher::Cidr { addr, prefix }) =>
                cidr_range_overlap_exec(addr, *prefix, start, end),
        }
    }
}

/// A CIDR block and a range overlap: the block's first address is not
/// after the range's end and the range's start is not after the block's
/// last address.
pub open spec fn cidr_range_overlap(addr: IpAddr, prefix: u8, start: IpAddr, end: IpAddr) -> bool {
    match cidr_bounds(addr, prefix) {
        Some((lo, hi)) => addr_le(lo, end) && addr_le(start, hi),
        None => false,
    }
}

fn cidr_range_overlap_exec(addr: &IpAddr, prefix: u8, start: &IpAddr, end: &IpAddr) -> (r: bool)
    ensures
        r == cidr_range_overlap(*addr, prefix, *start, *end),
{
    match cidr_bounds_exec(addr, prefix) {
        Some((lo, hi)) => addr_le_exec(&lo, end) && addr_le_exec(start, &hi),
        None => false,
    }
}

/// Inclusive `[start, end]` port range.
#[derive(Debug, Clone, Copy, PartialEq, Eq, Structural)]
pub struct PortRange {
    /// First port (inclusive).
    pub start: u16,
    /// Last port (inclusive).
    pub end: u16,
}

impl PortRange {
    /// Construct a range; `None` if `start > end`.
    pub fn new(start: u16, end: u16) -> (r: Option<Self>)
        ensures
            start <= end ==> r == Some(PortRange { start, end }),
            start > end ==> r is None,
    {
        if start <= end {
            Some(PortRange { start, end })
        } else {
            None
        }
    }
}

/// Port matcher: single port, inclusive range, or any.
#[derive(Debug, Clone, Copy, PartialEq, Eq, Structural)]
pub enum PortMatcher {
    /// Match any port (wildcard).
    Any,
    /// A single port.
    Single(u16),
    /// Inclusive port range.
    Range(PortRange),
}

impl Default for PortMatcher {
    /// The wildcard.
    fn default() -> (m: Self)
        ensures
            m == PortMatcher::Any,
    {
        PortMatcher::Any
    }
}

impl PortMatcher {
    /// The ports this matcher admits.
    pub open spec fn admits(self, p: u16) -> bool {
        match self {
            PortMatcher::Any => true,
            PortMatcher::Single(a) => p == a,
            PortMatcher::Range(r) => r.start <= p <= r.end,
        }
    }

    /// Every range has its start not after its end (as `PortRange::new`
    /// builds them): each such matcher admits at least one port.
    pub open spec fn is_valid(self) -> bool {
        match self {
            PortMatcher::Range(r) => r.start <= r.end,
            _ => true,
        }
    }

    /// The superset decision, case by case.
    pub open spec fn spec_is_superset_of(self, other: Self) -> bool {
        match (self, other) {
            (PortMatcher::Any, _) => true,
            (PortMatcher::Single(a), PortMatcher::Single(b)) => a == b,
            (PortMatcher::Single(a), PortMatcher::Range(r)) => r.start == a && r.end == a,
            (PortMatcher::Range(r1), PortMatcher::Range(r2)) => r1.start <= r2.start && r2.end <= r1.end,
            (PortMatcher::Range(r), PortMatcher::Single(a)) => r.start <= a && a <= r.end,
            (_, PortMatcher::Any) => false,
        }
    }

    /// The overlap decision, case by case.
    pub open spec fn spec_overlaps(self, other: Self) -> bool {
        match (self, other) {
            (PortMatcher::Any, _) => true,
            (_, PortMatcher::Any) => true,
            (PortMatcher::Single(a), PortMatcher::Single(b)) => a == b,
            (PortMatcher::Single(a), PortMatcher::Range(r)) => r.start <= a && a <= r.end,
            (PortMatcher::Range(r), PortMatcher::Single(a)) => r.start <= a && a <= r.end,
            (PortMatcher::Range(r1), PortMatcher::Range(r2)) => r1.start <= r2.end && r2.start <= r1.end,
        }
    }

    /// Returns `true` if every port of `other` is also matched by `self`.
    /// A single port covers a range only when the range is that one port.
    pub fn is_superset_of(&self, other: &Self) -> (r: bool)
        ensures
            r == self.spec_is_superset_of(*other),
            r ==> forall|p: u16| #[trigger] other.admits(p) ==> self.admits(p),
    {
        match (self, other) {
            (PortMatcher::Any, _) => true,
            (PortMatcher::Single(a), PortMatcher::Single(b)) => *a == *b,
            (PortMatcher::Single(a), PortMatcher::Range(r)) => r.start == *a && r.end == *a,
            (PortMatcher::Range(r1), PortMatcher::Range(r2)) => r1.start <= r2.start && r2.end <= r1.end,
            (PortMatcher::Range(r), PortMatcher::Single(a)) => r.start <= *a && *a <= r.end,
            (_, PortMatcher::Any) => false,
        }
    }

    /// Returns `true` if the two matchers can match at least one common port.
    pub fn overlaps(&self, other: &Self) -> (r: bool)
        ensures
            r == self.spec_overlaps(*other),
            forall|p: u16| #[trigger] self.admits(p) && other.admits(p) ==> r,
            r && self.is_valid() && other.is_valid() ==> exists|p: u16| self.admits(p) && other.admits(p),
    {
        proof {
            if self.spec_overlaps(*other) && self.is_valid() && other.is_valid() {
                crate::laws::port_overlap_is_sound(*self, *other);
            }
        }
        match (self, other) {
            (PortMatcher::Any, _) => true,
            (_, PortMatcher::Any) => true,
            (PortMatcher::Single(a), PortMatcher::Single(b)) => *a == *b,
            (PortMatcher::Single(a), PortMatcher::Range(r)) => r.start <= *a && *a <= r.end,
            (PortMatcher::Range(r), PortMatcher::Single(a)) => r.start <= *a && *a <= r.end,
            (PortMatcher::Range(r1), PortMatcher::Range(r2)) => r1.start <= r2.end && r2.start <= r1.end,
        }
    }
}

/// Interface matcher: by name, or any.
#[derive(Debug, PartialEq, Eq)]
pub enum InterfaceMatcher {
    /// Match any interface (wildcard).
    Any,
    /// Exact interface name (e.g. `eth0`, `wan0`).
    Name(String),
}

impl Clone for InterfaceMatcher {
    fn clone(&self) -> (r: Self)
        ensures
            r == *self,
    {
        match self {
            InterfaceMatcher::Any => InterfaceMatcher::Any,
            InterfaceMatcher::Name(n) => InterfaceMatcher::Name(n.clone()),
        }
    }
}

impl Default for InterfaceMatcher {
    /// The wildcard.
    fn default() -> (m: Self)
        ensures
            m == InterfaceMatcher::Any,
    {
        InterfaceMatcher::Any
    }
}

impl InterfaceMatcher {
    /// The interface names this matcher admits.
    pub open spec fn admits(self, name: Seq<char>) -> bool {
        match self {
            InterfaceMatcher::Any => true,
            InterfaceMatcher::Name(n) => n@ == name,
        }
    }

    /// Both are `Any`, or both name the same interface.
    pub open spec fn same_as(self, other: Self) -> bool {
        match (self, other) {
            (InterfaceMatcher::Any, InterfaceMatcher::Any) => true,
            (InterfaceMatcher::Name(a), InterfaceMatcher::Name(b)) => a@ == b@,
            _ => false,
        }
    }

    /// The superset decision.
    pub open spec fn spec_is_superset_of(self, other: Self) -> bool {
        match (self, other) {
            (InterfaceMatcher::Any, _) => true,
            (InterfaceMatcher::Name(a), InterfaceMatcher::Name(b)) => a@ == b@,
            (InterfaceMatcher::Name(_), InterfaceMatcher::Any) => false,
        }
    }

    /// The overlap decision.
    pub open spec fn spec_overlaps(self, other: Self) -> bool {
        match (self, other) {
            (InterfaceMatcher::Name(a), InterfaceMatcher::Name(b)) => a@ == b@,
            _ => true,
        }
    }

    /// Returns `true` if every interface of `other` is also matched by `self`.
    pub fn is_superset_of(&self, other: &Self) -> (r: bool)
        ensures
            r == self.spec_is_superset_of(*other),
            r ==> forall|n: Seq<char>| #[trigger] other.admits(n) ==> self.admits(n),
    {
        match (self, other) {
            (InterfaceMatcher::Any, _) => true,
            (InterfaceMatcher::Name(a), InterfaceMatcher::Name(b)) => *a == *b,
            (InterfaceMatcher::Name(_), InterfaceMatcher::Any) => false,
        }
    }

    /// Returns `true` if the two matchers can match at least one common interface.
    pub fn overlaps(&self, other: &Self) -> (r: bool)
        ensures
            r == self.spec_overlaps(*other),
            forall|n: Seq<char>| #[trigger] self.admits(n) && other.admits(n) ==> r,
            r ==> exists|n: Seq<char>| self.admits(n) && other.admits(n),
    {
        proof {
            if self.spec_overlaps(*other) {
                crate::laws::interface_overlap_is_sound(*self, *other);
            }
        }
        match (self, other) {
            (InterfaceMatcher::Name(a), InterfaceMatcher::Name(b)) => *a == *b,
            _ => true,
        }
    }

    pub(crate) fn same(&self, other: &Self) -> (r: bool)
        ensures
            r == self.same_as(*other),
    {
        match (self, other) {
            (InterfaceMatcher::Any, InterfaceMatcher::Any) => true,
            (InterfaceMatcher::Name(a), InterfaceMatcher::Name(b)) => *a == *b,
            _ => false,
        }
    }
}

/// IP protocol number of a named or numbered protocol (`None` for `Any`):
/// ICMP 1, TCP 6, UDP 17, ICMPv6 58.
pub open spec fn protocol_number(p: Protocol) -> Option<u8> {
    match p {
        Protocol::Any => None,
        Protocol::Tcp => Some(6),
        Protocol::Udp => Some(17),
        Protocol::Icmp => Some(1),
        Protocol::Icmpv6 => Some(58),
        Protocol::Number(n) => Some(n),
    }
}

impl Protocol {
    /// The packet protocols this matcher admits: all for `Any`, otherwise
    /// those with the same protocol number (`Tcp` and `Number(6)` alike).
    pub open spec fn admits(self, p: Protocol) -> bool {
        self is Any || (protocol_number(p) is Some && protocol_number(self) == protocol_number(p))
    }

    /// The "allows every protocol of" decision.
    pub open spec fn spec_allows_all(self, other: Self) -> bool {
        match (self, other) {
            (Protocol::Any, _) => true,
            (_, Protocol::Any) => false,
            (a, b) => protocol_number(a) == protocol_number(b),
        }
    }

    /// The overlap decision.
    pub open spec fn spec_overlaps(self, other: Self) -> bool {
        self is Any || other is Any || protocol_number(self) == protocol_number(other)
    }

    /// The IP protocol number, `None` for the wildcard.
    pub fn number(&self) -> (n: Option<u8>)
        ensures
            n == protocol_number(*self),
    {
        match self {
            Protocol::Any => None,
            Protocol::Tcp => Some(6),
            Protocol::Udp => Some(17),
            Protocol::Icmp => Some(1),
            Protocol::Icmpv6 => Some(58),
            Protocol::Number(n) => Some(*n),
        }
    }

    /// Returns `true` if every protocol of `other` is also allowed by `self`.
    pub fn allows_all(&self, other: &Self) -> (r: bool)
        ensures
            r == self.spec_allows_all(*other),
            r ==> forall|p: Protocol| #[trigger] other.admits(p) ==> self.admits(p),
    {
        match (self, other) {
            (Protocol::Any, _) => true,
            (_, Protocol::Any) => false,
            (a, b) => a.number() == b.number(),
        }
    }

    /// Returns `true` if the two protocol matchers can match a common value.
    pub fn overlaps(&self, other: &Self) -> (r: bool)
        ensures
            r == self.spec_overlaps(*other),
            forall|p: Protocol| #[trigger] self.admits(p) && other.admits(p) ==> r,
            r ==> exists|p: Protocol| self.admits(p) && other.admits(p),
    {
        proof {
            if self.spec_overlaps(*other) {
                crate::laws::protocol_overlap_is_sound(*self, *other);
            }
        }
        match (self, other) {
            (Protocol::Any, _) | (_, Protocol::Any) => true,
            (a, b) => a.number() == b.number(),
        }
    }
}

/// Conditions a packet must satisfy for a rule to fire; all fields AND-ed.
#[derive(Debug, PartialEq, Eq)]
pub struct Matcher {
    /// IP protocol.
    pub protocol: Protocol,
    /// Source address.
    pub src_addr: AddressMatcher,
    /// Destination address.
    pub dst_addr: AddressMatcher,
    /// Source port.
    pub src_port: PortMatcher,
    /// Destination port.
    pub dst_port: PortMatcher,
    /// Ingress interface.
    pub in_interface: InterfaceMatcher,
    /// Egress interface.
    pub out_interface: InterfaceMatcher,
}

impl Clone for Matcher {
    fn clone(&self) -> (r: Self)
        ensures
            r == *self,
    {
        Matcher {
            protocol: self.protocol,
            src_addr: self.src_addr,
            dst_addr: self.dst_addr,
            src_port: self.src_port,
            dst_port: self.dst_port,
            in_interface: self.in_interface.clone(),
            out_interface: self.out_interface.clone(),
        }
    }
}

impl Default for Matcher {
    /// The wildcard matcher (same as [`Matcher::any`]).
    fn default() -> (m: Self)
        ensures
            m.protocol == Protocol::Any,
            m.src_addr == AddressMatcher::Any,
            m.dst_addr == AddressMatcher::Any,
            m.src_port == PortMatcher::Any,
            m.dst_port == PortMatcher::Any,
            m.in_interface == InterfaceMatcher::Any,
            m.out_interface == InterfaceMatcher::Any,
    {
        Matcher::any()
    }
}

/// The header fields a matcher inspects.
pub struct Packet {
    /// IP protocol of the packet.
    pub protocol: Protocol,
    /// Source address.
    pub src_addr: IpAddr,
    /// Destination address.
    pub dst_addr: IpAddr,
    /// Source port.
    pub src_port: u16,
    /// Destination port.
    pub dst_port: u16,
    /// Ingress interface name.
    pub in_interface: String,
    /// Egress interface name.
    pub out_interface: String,
}

impl Matcher {
    /// Every field admits the packet's corresponding header field.
    pub open spec fn admits(self, p: Packet) -> bool {
        &&& self.protocol.admits(p.protocol)
        &&& self.src_addr.admits(p.src_addr)
        &&& self.dst_addr.admits(p.dst_addr)
        &&& self.src_port.admits(p.src_port)
        &&& self.dst_port.admits(p.dst_port)
        &&& self.in_interface.admits(p.in_interface@)
        &&& self.out_interface.admits(p.out_interface@)
    }

    /// Both address fields are well formed (ranges of one family).
    pub open spec fn well_formed(self) -> bool {
        self.src_addr.well_formed() && self.dst_addr.well_formed()
    }

    /// Address and port fields are valid: each admits at least one value.
    pub open spec fn is_valid(self) -> bool {
        &&& self.src_addr.is_valid()
        &&& self.dst_addr.is_valid()
        &&& self.src_port.is_valid()
        &&& self.dst_port.is_valid()
    }

    /// Field-by-field equality (interface names compared by content).
    pub open spec fn same_as(self, other: Self) -> bool {
        &&& self.protocol == other.protocol
        &&& self.src_addr == other.src_addr
        &&& self.dst_addr == other.dst_addr
        &&& self.src_port == other.src_port
        &&& self.dst_port == other.dst_port
        &&& self.in_interface.same_as(other.in_interface)
        &&& self.out_interface.same_as(other.out_interface)
    }

    /// The field-wise superset decision.
    pub open spec fn spec_is_superset_of(self, other: Self) -> bool {
        &&& self.protocol.spec_allows_all(other.protocol)
        &&& self.src_addr.spec_is_superset_of(other.src_addr)
        &&& self.dst_addr.spec_is_superset_of(other.dst_addr)
        &&& self.src_port.spec_is_superset_of(other.src_port)
        &&& self.dst_port.spec_is_superset_of(other.dst_port)
        &&& self.in_interface.spec_is_superset_of(other.in_interface)
        &&& self.out_interface.spec_is_superset_of(other.out_interface)
    }

    /// The field-wise overlap decision.
    pub open spec fn spec_overlaps(self, other: Self) -> bool {
        &&& self.protocol.spec_overlaps(other.protocol)
        &&& self.src_addr.spec_overlaps(other.src_addr)
        &&& self.dst_addr.spec_overlaps(other.dst_addr)
        &&& self.src_port.spec_overlaps(other.src_port)
        &&& self.dst_port.spec_overlaps(other.dst_port)
        &&& self.in_interface.spec_overlaps(other.in_interface)
        &&& self.out_interface.spec_overlaps(other.out_interface)
    }

    /// A wildcard matcher (matches everything).
    pub fn any() -> (m: Self)
        ensures
            m.protocol == Protocol::Any,
            m.src_addr == AddressMatcher::Any,
            m.dst_addr == AddressMatcher::Any,
            m.src_port == PortMatcher::Any,
            m.dst_port == PortMatcher::Any,
            m.in_interface == InterfaceMatcher::Any,
            m.out_interface == InterfaceMatcher::Any,
    {
        Matcher {
            protocol: Protocol::Any,
            src_addr: AddressMatcher::Any,
            dst_addr: AddressMatcher::Any,
            src_port: PortMatcher::Any,
            dst_port: PortMatcher::Any,
            in_interface: InterfaceMatcher::Any,
            out_interface: InterfaceMatcher::Any,
        }
    }

    /// Returns `true` if every packet matched by `other` is also matched by
    /// `self` (field-wise superset). Conservative on undecided pairs.
    pub fn is_superset_of(&self, other: &Self) -> (r: bool)
        ensures
            r == self.spec_is_superset_of(*other),
            r && self.well_formed() ==> forall|p: Packet| #[trigger] other.admits(p) ==> self.admits(p),
    {
        proof {
            if self.spec_is_superset_of(*other) && self.well_formed() {
                assert forall|p: Packet| #[trigger] other.admits(p) implies self.admits(p) by {
                    crate::laws::matcher_superset_is_sound(*self, *other, p);
                }
            }
        }
        self.protocol.allows_all(&other.protocol) && self.src_addr.is_superset_of(&other.src_addr)
            && self.dst_addr.is_superset_of(&other.dst_addr) && self.src_port.is_superset_of(
            &other.src_port,
        ) && self.dst_port.is_superset_of(&other.dst_port) && self.in_interface.is_superset_of(
            &other.in_interface,
        ) && self.out_interface.is_superset_of(&other.out_interface)
    }

    /// Returns `true` if both matchers can match at least one common packet
    /// (field-wise overlap).
    pub fn overlaps(&self, other: &Self) -> (r: bool)
        ensures
            r == self.spec_overlaps(*other),
            forall|p: Packet| #[trigger] self.admits(p) && other.admits(p) ==> r,
            r && self.is_valid() && other.is_valid() ==> {
                &&& exists|x: Protocol| self.protocol.admits(x) && other.protocol.admits(x)
                &&& exists|x: IpAddr| self.src_addr.admits(x) && other.src_addr.admits(x)
                &&& exists|x: IpAddr| self.dst_addr.admits(x) && other.dst_addr.admits(x)
                &&& exists|x: u16| self.src_port.admits(x) && other.src_port.admits(x)
                &&& exists|x: u16| self.dst_port.admits(x) && other.dst_port.admits(x)
                &&& exists|x: Seq<char>| self.in_interface.admits(x) && other.in_interface.admits(x)
                &&& exists|x: Seq<char>| self.out_interface.admits(x) && other.out_interface.admits(x)
            },
    {
        proof {
            if self.spec_overlaps(*other) && self.is_valid() && other.is_valid() {
                crate::laws::matcher_overlap_is_sound(*self, *other);
            }
            assert forall|p: Packet| #[trigger] self.admits(p) && other.admits(p) implies self.spec_overlaps(
                *other,
            ) by {
                crate::laws::matcher_overlap_is_complete(*self, *other, p);
            }
        }
        self.protocol.overlaps(&other.protocol) && self.src_addr.overlaps(&other.src_addr)
            && self.dst_addr.overlaps(&other.dst_addr) && self.src_port.overlaps(&other.src_port)
            && self.dst_port.overlaps(&other.dst_port) && self.in_interface.overlaps(
            &other.in_interface,
        ) && self.out_interface.overlaps(&other.out_interface)
    }

    pub(crate) fn same(&self, other: &Self) -> (r: bool)
        ensures
            r == self.same_as(*other),
    {
        self.protocol == other.protocol && self.src_addr == other.src_addr && self.dst_addr
            == other.dst_addr && self.src_port == other.src_port && self.dst_port == other.dst_port
            && self.in_interface.same(&other.in_interface) && self.out_interface.same(
            &other.out_interface,
        )
    }
}

} // verus!
