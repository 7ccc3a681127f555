//! Laws of the library.
//!
//! The lint pass calls a rule dead when an earlier terminal rule's matcher
//! `is_superset_of` its matcher, and reports a priority collision when two
//! matchers `overlaps`. The first laws relate those decisions to the
//! packets each matcher admits; the later ones state what the lint pass
//! reports, kind by kind and rule by rule, and that the priority order
//! handed to the dataplane is stable.

use vstd::prelude::*;

use vstd::arithmetic::power2::{lemma2_to64, lemma_pow2_strictly_increases, pow2};
use vstd::arithmetic::div_mod::{lemma_fundamental_div_mod, lemma_fundamental_div_mod_converse, lemma_mod_pos_bound};

use crate::addr::{
    addr_le, cidr_bounds, host_bits, in_cidr, in_range, lemma_cidr_bounds_values, same_family,
    lemma_full_prefix_block, lemma_addr_le_trans, lemma_cidr_between, lemma_cidr_bounds_contain, lemma_cidr_nested, IpAddr,
};
use crate::bridge::{desired_chain, desired_ruleset};
use crate::lint::{
    duplicate_id_message, shadowed_message, spec_action_label, unreachable_message, version_message,
    collides,
    dead_kind,
    version_issues, IssueView,
    collision_message, collision_pair, collisions_before, issue, LintKind,
    all_chain_issues, all_rule_ids, chain_issues, collision_at, collision_issues, dead_at, dead_issues,
    duplicate_chain_issues, duplicate_id_issues, evaluation_sequence, first_shadower, group_start,
    id_repeats, name_repeats, shadows, verify_issues,
};
use crate::matcher::{cidr_range_overlap, protocol_number, AddressMatcher, InterfaceMatcher, Matcher, Packet, PortMatcher, Protocol};
use crate::order::{
    evaluation_order, evaluation_order_exists, evaluation_order_is_unique, is_evaluation_order,
    priorities, runs_before,
};
use crate::rule::{Rule, RuleId};
use crate::ruleset::{chain_rule_pairs, Chain, ChainModel, Ruleset, RulesetModel, SCHEMA_VERSION};
use crate::cli::{applied_line, reloaded_line, status_lines, validated_line};
use crate::control::{validated_text, StatusPayload};
use crate::state::ApplyOutcome;
use crate::text::{decimal, decimal_reads_back, reads_as};

verus! {

/// Address superset is sound: when `m` is decided a superset of `n`, every
/// address `n` admits is admitted by `m` (for `m` whose range, if any, has
/// endpoints of one family, as documented for ranges).
pub proof fn address_superset_is_sound(m: AddressMatcher, n: AddressMatcher, x: IpAddr)
    requires
        m.well_formed(),
        m.spec_is_superset_of(n),
        n.admits(x),
    ensures
        m.admits(x),
{
    match m {
        AddressMatcher::Single(a) => match n {
            AddressMatcher::Cidr { addr, prefix } => {
                lemma_full_prefix_block(x, a, addr, prefix);
            },
            _ => {},
        },
        AddressMatcher::Cidr { addr: a1, prefix: p1 } => match n {
            AddressMatcher::Cidr { addr: a2, prefix: p2 } => {
                lemma_cidr_nested(x, a1, p1, a2, p2);
            },
            AddressMatcher::Range { start, end } => {
                lemma_cidr_between(x, start, end, a1, p1);
            },
            _ => {},
        },
        AddressMatcher::Range { start: s1, end: e1 } => match n {
            AddressMatcher::Range { start: s2, end: e2 } => {
                lemma_addr_le_trans(s1, s2, x);
                lemma_addr_le_trans(x, e2, e1);
            },
            AddressMatcher::Cidr { addr, prefix } => {
                lemma_cidr_bounds_contain(x, addr, prefix);
            },
            _ => {},
        },
        _ => {},
    }
}

/// Address overlap is complete: two matchers that admit a common address
/// are decided to overlap.
pub proof fn address_overlap_is_complete(m: AddressMatcher, n: AddressMatcher, x: IpAddr)
    requires
        m.admits(x),
        n.admits(x),
    ensures
        m.spec_overlaps(n),
{
    match (m, n) {
        (AddressMatcher::Cidr { addr: a1, prefix: p1 }, AddressMatcher::Cidr { addr: a2, prefix: p2 }) => {
            if p1 <= p2 {
                lemma_cidr_nested(a2, a1, p1, x, p2);
            } else {
                lemma_cidr_nested(a1, a2, p2, x, p1);
            }
        },
        (AddressMatcher::Cidr { addr, prefix }, AddressMatcher::Range { start, end }) => {
            lemma_cidr_bounds_contain(x, addr, prefix);
        },
        (AddressMatcher::Range { start, end }, AddressMatcher::Cidr { addr, prefix }) => {
            lemma_cidr_bounds_contain(x, addr, prefix);
        },
        _ => {},
    }
}

/// An address lies in a CIDR block exactly when the block has bounds (its
/// prefix fits the family) and the address lies between them.
pub proof fn in_cidr_iff_between_bounds(x: IpAddr, net: IpAddr, prefix: u8)
    ensures
        in_cidr(x, net, prefix) <==> (cidr_bounds(net, prefix) matches Some((lo, hi)) && in_range(x, lo, hi)),
{
    if in_cidr(x, net, prefix) {
        lemma_cidr_bounds_contain(x, net, prefix);
    } else if prefix <= net.bits() {
        lemma_cidr_bounds_values(net, prefix);
        let d = pow2(host_bits(net, prefix));
        let q = net.value() / d;
        if let Some((lo, hi)) = cidr_bounds(net, prefix) {
            if in_range(x, lo, hi) {
                lemma_fundamental_div_mod_converse(x.value() as int, d as int, q as int, x.value() - q * d);
            }
        }
    }
}

/// Two values with the same quotient by `d` are less than `d` apart.
proof fn lemma_same_quotient(x: nat, y: nat, d: nat)
    requires
        d > 0,
        x <= y,
        x / d == y / d,
    ensures
        y - x < d,
{
    lemma_fundamental_div_mod(x as int, d as int);
    lemma_fundamental_div_mod(y as int, d as int);
    lemma_mod_pos_bound(x as int, d as int);
    lemma_mod_pos_bound(y as int, d as int);
}

/// An address of the other family than `a`'s.
pub open spec fn other_family(a: IpAddr) -> IpAddr {
    if a.is_v4() {
        IpAddr::V6(0)
    } else {
        IpAddr::V4(0)
    }
}

/// The bounds of a valid block lie in the block, and the block is a single
/// address exactly when its prefix is the family's width.
proof fn lemma_block_bounds(addr: IpAddr, prefix: u8)
    requires
        prefix <= addr.bits(),
    ensures
        cidr_bounds(addr, prefix) matches Some((lo, hi)) && {
            &&& in_cidr(lo, addr, prefix)
            &&& in_cidr(hi, addr, prefix)
            &&& in_cidr(addr, addr, prefix)
            &&& hi.value() - lo.value() == pow2(host_bits(addr, prefix)) - 1
            &&& (lo == hi ==> prefix == addr.bits())
        },
{
    lemma_cidr_bounds_values(addr, prefix);
    if let Some((lo, hi)) = cidr_bounds(addr, prefix) {
        in_cidr_iff_between_bounds(lo, addr, prefix);
        in_cidr_iff_between_bounds(hi, addr, prefix);
        let k = host_bits(addr, prefix);
        if k > 0 {
            lemma2_to64();
            lemma_pow2_strictly_increases(0, k);
        }
    }
}

/// Address superset is complete: for valid matchers, when every address
/// `n` admits is admitted by `m`, `m` is decided a superset of `n`. With
/// soundness, the decision is exact on valid matchers.
pub proof fn address_superset_is_complete(m: AddressMatcher, n: AddressMatcher)
    requires
        m.is_valid(),
        n.is_valid(),
        forall|x: IpAddr| #[trigger] n.admits(x) ==> m.admits(x),
    ensures
        m.spec_is_superset_of(n),
{
    match n {
        AddressMatcher::Any => {
            if !(m is Any) {
                let w = other_family(first_address(m));
                assert(n.admits(w));
                assert(!m.admits(w));
            }
        },
        AddressMatcher::Single(b) => {
            assert(n.admits(b));
        },
        AddressMatcher::Range { start, end } => {
            assert(n.admits(start));
            assert(n.admits(end));
        },
        AddressMatcher::Cidr { addr, prefix } => {
            lemma_block_bounds(addr, prefix);
            if let Some((lo, hi)) = cidr_bounds(addr, prefix) {
                assert(n.admits(lo) && n.admits(hi) && n.admits(addr));
                match m {
                    AddressMatcher::Cidr { addr: a1, prefix: p1 } => {
                        if p1 > prefix {
                            let d1 = pow2(host_bits(a1, p1));
                            let d = pow2(host_bits(addr, prefix));
                            lemma_pow2_strictly_increases(host_bits(a1, p1), host_bits(addr, prefix));
                            vstd::arithmetic::power2::lemma_pow2_pos(host_bits(a1, p1));
                            lemma_same_quotient(lo.value(), hi.value(), d1);
                            assert(false);
                        }
                    },
                    _ => {},
                }
            }
        },
    }
}

/// Port superset is complete below the wildcard: for valid matchers, when
/// every port `n` admits (`n` not the wildcard) is admitted by `m`, `m` is
/// decided a superset of `n`.
pub proof fn port_superset_is_complete(m: PortMatcher, n: PortMatcher)
    requires
        m.is_valid(),
        n.is_valid(),
        !(n is Any),
        forall|p: u16| #[trigger] n.admits(p) ==> m.admits(p),
    ensures
        m.spec_is_superset_of(n),
{
    match n {
        PortMatcher::Single(b) => {
            assert(n.admits(b));
        },
        PortMatcher::Range(r) => {
            assert(n.admits(r.start));
            assert(n.admits(r.end));
        },
        PortMatcher::Any => {},
    }
}

/// Protocol "allows all" is complete: when every protocol `n` admits is
/// admitted by `m`, `m` is decided to allow all of `n`.
pub proof fn protocol_allows_all_is_complete(m: Protocol, n: Protocol)
    requires
        forall|p: Protocol| #[trigger] n.admits(p) ==> m.admits(p),
    ensures
        m.spec_allows_all(n),
{
    if n is Any {
        if !(m is Any) {
            let w = if protocol_number(m) == Some(6u8) { Protocol::Udp } else { Protocol::Tcp };
            assert(n.admits(w));
        }
    } else {
        assert(n.admits(n));
    }
}

/// Interface superset is complete: when every name `n` admits is admitted
/// by `m`, `m` is decided a superset of `n`.
pub proof fn interface_superset_is_complete(m: InterfaceMatcher, n: InterfaceMatcher)
    requires
        forall|name: Seq<char>| #[trigger] n.admits(name) ==> m.admits(name),
    ensures
        m.spec_is_superset_of(n),
{
    match (m, n) {
        (InterfaceMatcher::Name(a), InterfaceMatcher::Any) => {
            let w = a@.push('x');
            assert(n.admits(w));
            assert(w.len() != a@.len());
        },
        (InterfaceMatcher::Name(a), InterfaceMatcher::Name(b)) => {
            assert(n.admits(b@));
        },
        _ => {},
    }
}

/// An address every valid matcher admits: the wildcard's is `0.0.0.0`,
/// otherwise the matcher's own address, block address or range start.
pub open spec fn first_address(m: AddressMatcher) -> IpAddr {
    match m {
        AddressMatcher::Any => IpAddr::V4(0),
        AddressMatcher::Single(a) => a,
        AddressMatcher::Cidr { addr, .. } => addr,
        AddressMatcher::Range { start, .. } => start,
    }
}

proof fn lemma_first_address(m: AddressMatcher)
    requires
        m.is_valid(),
    ensures
        m.admits(first_address(m)),
{
}

/// A block and a range that are decided to overlap share an address.
proof fn lemma_cidr_range_common(addr: IpAddr, prefix: u8, start: IpAddr, end: IpAddr)
    requires
        prefix <= addr.bits(),
        same_family(start, end),
        addr_le(start, end),
        cidr_range_overlap(addr, prefix, start, end),
    ensures
        exists|x: IpAddr| in_cidr(x, addr, prefix) && in_range(x, start, end),
{
    lemma_cidr_bounds_values(addr, prefix);
    if let Some((lo, hi)) = cidr_bounds(addr, prefix) {
        let w = if addr_le(start, lo) { lo } else { start };
        in_cidr_iff_between_bounds(w, addr, prefix);
        assert(in_cidr(w, addr, prefix) && in_range(w, start, end));
    }
}

/// Address overlap is sound: two valid matchers decided to overlap admit
/// a common address. With completeness, overlap holds exactly when some
/// address is admitted by both.
pub proof fn address_overlap_is_sound(m: AddressMatcher, n: AddressMatcher)
    requires
        m.is_valid(),
        n.is_valid(),
        m.spec_overlaps(n),
    ensures
        exists|x: IpAddr| m.admits(x) && n.admits(x),
{
    lemma_first_address(m);
    lemma_first_address(n);
    match (m, n) {
        (AddressMatcher::Any, _) => {
            assert(m.admits(first_address(n)) && n.admits(first_address(n)));
        },
        (_, AddressMatcher::Any) => {
            assert(m.admits(first_address(m)) && n.admits(first_address(m)));
        },
        (AddressMatcher::Single(a), _) => {
            assert(m.admits(a) && n.admits(a));
        },
        (_, AddressMatcher::Single(a)) => {
            assert(m.admits(a) && n.admits(a));
        },
        (AddressMatcher::Cidr { addr: a1, .. }, AddressMatcher::Cidr { addr: a2, .. }) => {
            if m.spec_is_superset_of(n) {
                address_superset_is_sound(m, n, a2);
                assert(m.admits(a2) && n.admits(a2));
            } else {
                address_superset_is_sound(n, m, a1);
                assert(m.admits(a1) && n.admits(a1));
            }
        },
        (AddressMatcher::Range { start: s1, end: e1 }, AddressMatcher::Range { start: s2, end: e2 }) => {
            let w = if addr_le(s1, s2) { s2 } else { s1 };
            assert(m.admits(w) && n.admits(w));
        },
        (AddressMatcher::Cidr { addr, prefix }, AddressMatcher::Range { start, end }) => {
            lemma_cidr_range_common(addr, prefix, start, end);
            let x = choose|x: IpAddr| in_cidr(x, addr, prefix) && in_range(x, start, end);
            assert(m.admits(x) && n.admits(x));
        },
        (AddressMatcher::Range { start, end }, AddressMatcher::Cidr { addr, prefix }) => {
            lemma_cidr_range_common(addr, prefix, start, end);
            let x = choose|x: IpAddr| in_cidr(x, addr, prefix) && in_range(x, start, end);
            assert(m.admits(x) && n.admits(x));
        },
    }
}

/// Port overlap is sound: two valid port matchers decided to overlap admit
/// a common port.
pub proof fn port_overlap_is_sound(m: PortMatcher, n: PortMatcher)
    requires
        m.is_valid(),
        n.is_valid(),
        m.spec_overlaps(n),
    ensures
        exists|p: u16| m.admits(p) && n.admits(p),
{
    match (m, n) {
        (PortMatcher::Any, PortMatcher::Any) => {
            assert(m.admits(0) && n.admits(0));
        },
        (PortMatcher::Any, PortMatcher::Single(a)) => {
            assert(m.admits(a) && n.admits(a));
        },
        (PortMatcher::Any, PortMatcher::Range(r)) => {
            assert(m.admits(r.start) && n.admits(r.start));
        },
        (PortMatcher::Single(a), _) => {
            assert(m.admits(a) && n.admits(a));
        },
        (PortMatcher::Range(r), PortMatcher::Any) => {
            assert(m.admits(r.start) && n.admits(r.start));
        },
        (PortMatcher::Range(r), PortMatcher::Single(a)) => {
            assert(m.admits(a) && n.admits(a));
        },
        (PortMatcher::Range(r1), PortMatcher::Range(r2)) => {
            let w = if r1.start <= r2.start { r2.start } else { r1.start };
            assert(m.admits(w) && n.admits(w));
        },
    }
}

/// Interface overlap is sound: two interface matchers decided to overlap
/// admit a common name.
pub proof fn interface_overlap_is_sound(m: InterfaceMatcher, n: InterfaceMatcher)
    requires
        m.spec_overlaps(n),
    ensures
        exists|name: Seq<char>| m.admits(name) && n.admits(name),
{
    let w: Seq<char> = if m is Name {
        m->0@
    } else if n is Name {
        n->0@
    } else {
        Seq::empty()
    };
    assert(m.admits(w) && n.admits(w));
}

/// Protocol overlap is sound: two protocol matchers decided to overlap
/// admit a common protocol.
pub proof fn protocol_overlap_is_sound(m: Protocol, n: Protocol)
    requires
        m.spec_overlaps(n),
    ensures
        exists|p: Protocol| m.admits(p) && n.admits(p),
{
    let w = if !(m is Any) {
        m
    } else if !(n is Any) {
        n
    } else {
        Protocol::Tcp
    };
    assert(m.admits(w) && n.admits(w));
}

/// Matcher overlap is sound field by field: when two matchers whose
/// address and port fields are valid are decided to overlap, every header
/// field has a value both admit (and the fields are independent, so
/// together these make a packet both match).
pub proof fn matcher_overlap_is_sound(m: Matcher, n: Matcher)
    requires
        m.is_valid(),
        n.is_valid(),
        m.spec_overlaps(n),
    ensures
        exists|p: Protocol| m.protocol.admits(p) && n.protocol.admits(p),
        exists|x: IpAddr| m.src_addr.admits(x) && n.src_addr.admits(x),
        exists|x: IpAddr| m.dst_addr.admits(x) && n.dst_addr.admits(x),
        exists|p: u16| m.src_port.admits(p) && n.src_port.admits(p),
        exists|p: u16| m.dst_port.admits(p) && n.dst_port.admits(p),
        exists|name: Seq<char>| m.in_interface.admits(name) && n.in_interface.admits(name),
        exists|name: Seq<char>| m.out_interface.admits(name) && n.out_interface.admits(name),
{
    protocol_overlap_is_sound(m.protocol, n.protocol);
    address_overlap_is_sound(m.src_addr, n.src_addr);
    address_overlap_is_sound(m.dst_addr, n.dst_addr);
    port_overlap_is_sound(m.src_port, n.src_port);
    port_overlap_is_sound(m.dst_port, n.dst_port);
    interface_overlap_is_sound(m.in_interface, n.in_interface);
    interface_overlap_is_sound(m.out_interface, n.out_interface);
}

/// Port superset is sound: when `m` is decided a superset of `n`, every
/// port `n` admits is admitted by `m`.
pub proof fn port_superset_is_sound(m: PortMatcher, n: PortMatcher, p: u16)
    requires
        m.spec_is_superset_of(n),
        n.admits(p),
    ensures
        m.admits(p),
{
}

/// Port overlap is complete: two matchers admitting a common port overlap.
pub proof fn port_overlap_is_complete(m: PortMatcher, n: PortMatcher, p: u16)
    requires
        m.admits(p),
        n.admits(p),
    ensures
        m.spec_overlaps(n),
{
}

/// Interface and protocol decisions are exact: superset means every name
/// (protocol) admitted by `n` is admitted by `m`, and a common admitted name
/// (protocol) means overlap.
pub proof fn interface_and_protocol_decisions_are_exact(
    m: InterfaceMatcher,
    n: InterfaceMatcher,
    name: Seq<char>,
    pm: Protocol,
    pn: Protocol,
    proto: Protocol,
)
    ensures
        m.spec_is_superset_of(n) && n.admits(name) ==> m.admits(name),
        m.admits(name) && n.admits(name) ==> m.spec_overlaps(n),
        pm.spec_allows_all(pn) && pn.admits(proto) ==> pm.admits(proto),
        pm.admits(proto) && pn.admits(proto) ==> pm.spec_overlaps(pn),
{
}

/// Matcher superset is sound: if `m` is decided a superset of `n`, every
/// packet `n` matches is matched by `m` (for `m` whose ranges have endpoints
/// of one family).
pub proof fn matcher_superset_is_sound(m: Matcher, n: Matcher, pkt: Packet)
    requires
        m.well_formed(),
        m.spec_is_superset_of(n),
        n.admits(pkt),
    ensures
        m.admits(pkt),
{
    address_superset_is_sound(m.src_addr, n.src_addr, pkt.src_addr);
    address_superset_is_sound(m.dst_addr, n.dst_addr, pkt.dst_addr);
    port_superset_is_sound(m.src_port, n.src_port, pkt.src_port);
    port_superset_is_sound(m.dst_port, n.dst_port, pkt.dst_port);
    interface_and_protocol_decisions_are_exact(
        m.in_interface,
        n.in_interface,
        pkt.in_interface@,
        m.protocol,
        n.protocol,
        pkt.protocol,
    );
    interface_and_protocol_decisions_are_exact(
        m.out_interface,
        n.out_interface,
        pkt.out_interface@,
        m.protocol,
        n.protocol,
        pkt.protocol,
    );
}

/// Matcher overlap is complete: two matchers that both match some packet
/// are decided to overlap, so a real priority collision is never missed.
pub proof fn matcher_overlap_is_complete(m: Matcher, n: Matcher, pkt: Packet)
    requires
        m.admits(pkt),
        n.admits(pkt),
    ensures
        m.spec_overlaps(n),
{
    address_overlap_is_complete(m.src_addr, n.src_addr, pkt.src_addr);
    address_overlap_is_complete(m.dst_addr, n.dst_addr, pkt.dst_addr);
    port_overlap_is_complete(m.src_port, n.src_port, pkt.src_port);
    port_overlap_is_complete(m.dst_port, n.dst_port, pkt.dst_port);
    interface_and_protocol_decisions_are_exact(
        m.in_interface,
        n.in_interface,
        pkt.in_interface@,
        m.protocol,
        n.protocol,
        pkt.protocol,
    );
    interface_and_protocol_decisions_are_exact(
        m.out_interface,
        n.out_interface,
        pkt.out_interface@,
        m.protocol,
        n.protocol,
        pkt.protocol,
    );
}

proof fn lemma_first_shadower(s: Seq<Rule>, j: int, i: int)
    ensures
        first_shadower(s, j, i) matches Some(x) ==> i <= x < j && shadows(s, x, j) && forall|y: int|
            i <= y < x ==> !#[trigger] shadows(s, y, j),
        first_shadower(s, j, i) is None ==> forall|y: int| i <= y < j ==> !#[trigger] shadows(s, y, j),
    decreases j - i,
{
    if i < j && !shadows(s, i, j) {
        lemma_first_shadower(s, j, i + 1);
    }
}

/// A rule reported unreachable or shadowed is dead: the rule named as its
/// shadower comes earlier in the walked order, is terminal, and (when the
/// superset decision between the two is exact) matches every packet the
/// dead rule matches, so the dead rule never decides a packet.
pub proof fn reported_dead_rule_is_covered(name: Seq<char>, s: Seq<Rule>, j: int, pkt: Packet)
    requires
        0 <= j < s.len(),
        dead_at(name, s, j).len() > 0,
    ensures
        first_shadower(s, j, 0) matches Some(i) && {
            &&& 0 <= i < j
            &&& dead_at(name, s, j).len() == 1
            &&& dead_at(name, s, j)[0].rule == Some(s[j].id)
            &&& dead_at(name, s, j)[0].other_rule == Some(s[i].id)
            &&& s[i].action.spec_is_terminal()
            &&& (s[i].matcher.well_formed() && s[j].matcher.admits(pkt)
                ==> s[i].matcher.admits(pkt))
        },
{
    lemma_first_shadower(s, j, 0);
    reveal(shadows);
    reveal(dead_at);
    if let Some(i) = first_shadower(s, j, 0) {
        if s[i].matcher.well_formed() && s[j].matcher.admits(pkt) {
            matcher_superset_is_sound(s[i].matcher, s[j].matcher, pkt);
        }
    }
}

proof fn lemma_group_start(s: Seq<Rule>, j: int)
    requires
        0 <= j < s.len(),
    ensures
        0 <= group_start(s, j) <= j,
        forall|i: int| group_start(s, j) <= i <= j ==> (#[trigger] s[i]).priority == s[j].priority,
    decreases j,
{
    if j > 0 && s[j - 1].priority == s[j].priority {
        lemma_group_start(s, j - 1);
    }
}

/// In a sequence sorted by priority, an earlier rule of the same priority
/// lies in the same run.
proof fn lemma_same_run(s: Seq<Rule>, i: int, j: int)
    requires
        0 <= i < j < s.len(),
        s[i].priority == s[j].priority,
        forall|a: int, b: int| 0 <= a < b < s.len() ==> (#[trigger] s[a]).priority <= (#[trigger] s[b]).priority,
    ensures
        group_start(s, j) <= i,
    decreases j - i,
{
    assert(s[i].priority <= s[j - 1].priority);
    if j - 1 == i {
        lemma_group_start(s, i);
    } else {
        lemma_same_run(s, i, j - 1);
    }
}

#[verifier::spinoff_prover]
proof fn lemma_collisions_before(name: Seq<char>, s: Seq<Rule>, j: int, k: int)
    requires
        0 <= j < s.len(),
        group_start(s, j) <= k <= j,
    ensures
        forall|t: int| 0 <= t < collisions_before(name, s, j, k).len() ==> exists|i: int|
            group_start(s, j) <= i < k && collision_pair(name, s, i, j).len() == 1 && (
            #[trigger] collisions_before(name, s, j, k)[t]) == collision_pair(name, s, i, j)[0],
        forall|i: int| group_start(s, j) <= i < k && collision_pair(name, s, i, j).len() == 1 ==> exists|t: int|
            0 <= t < collisions_before(name, s, j, k).len() && #[trigger] collisions_before(name, s, j, k)[t]
                == (#[trigger] collision_pair(name, s, i, j))[0],
    decreases k - group_start(s, j),
{
    lemma_group_start(s, j);
    if k > group_start(s, j) {
        lemma_collisions_before(name, s, j, k - 1);
        let prev = collisions_before(name, s, j, k - 1);
        let cur = collisions_before(name, s, j, k);
        let last = collision_pair(name, s, k - 1, j);
        assert(cur == prev + last);
        assert forall|t: int| 0 <= t < cur.len() implies exists|i: int|
            group_start(s, j) <= i < k && collision_pair(name, s, i, j).len() == 1 && (#[trigger] cur[t])
                == collision_pair(name, s, i, j)[0] by {
            if t < prev.len() {
                assert(cur[t] == prev[t]);
            } else {
                assert(cur[t] == last[0]);
            }
        }
        assert forall|i: int| group_start(s, j) <= i < k && collision_pair(name, s, i, j).len() == 1 implies exists|t: int|
            0 <= t < cur.len() && #[trigger] cur[t] == (#[trigger] collision_pair(name, s, i, j))[0] by {
            if i < k - 1 {
                let t0 = choose|t: int| 0 <= t < prev.len() && #[trigger] prev[t] == collision_pair(name, s, i, j)[0];
                assert(cur[t0] == prev[t0]);
            } else {
                assert(cur[prev.len() as int] == last[0]);
            }
        }
    }
}

/// A reported priority collision is genuine: each issue at position `j`
/// names an earlier rule of the same priority with another id and an
/// overlapping matcher, then the rule at `j`.
pub proof fn reported_collision_is_genuine(name: Seq<char>, s: Seq<Rule>, j: int)
    requires
        0 <= j < s.len(),
    ensures
        forall|t: int| 0 <= t < collision_at(name, s, j).len() ==> exists|i: int| {
            &&& 0 <= i < j
            &&& s[i].priority == s[j].priority
            &&& s[i].id != s[j].id
            &&& s[i].matcher.spec_overlaps(s[j].matcher)
            &&& #[trigger] collision_at(name, s, j)[t] == issue(
                LintKind::PriorityCollision,
                Some(name),
                Some(s[i].id),
                Some(s[j].id),
                collision_message(s[i].priority),
            )
        },
{
    lemma_group_start(s, j);
    lemma_collisions_before(name, s, j, j);
    reveal(collides);
}

/// Priority collisions are never missed: in a sequence in priority order
/// (as a chain's evaluation sequence is), every pair of rules of the same
/// priority, with different ids, that share a packet is reported at the
/// later one's position, earlier rule first.
pub proof fn every_colliding_pair_is_reported(name: Seq<char>, s: Seq<Rule>, i: int, j: int, pkt: Packet)
    requires
        forall|a: int, b: int| 0 <= a < b < s.len() ==> (#[trigger] s[a]).priority <= (#[trigger] s[b]).priority,
        0 <= i < j < s.len(),
        s[i].priority == s[j].priority,
        s[i].id != s[j].id,
        s[i].matcher.admits(pkt),
        s[j].matcher.admits(pkt),
    ensures
        exists|t: int| 0 <= t < collision_at(name, s, j).len() && #[trigger] collision_at(name, s, j)[t]
            == issue(
            LintKind::PriorityCollision,
            Some(name),
            Some(s[i].id),
            Some(s[j].id),
            collision_message(s[i].priority),
        ),
{
    assert(group_start(s, j) <= i) by {
        lemma_same_run(s, i, j);
    }
    assert(s[i].matcher.spec_overlaps(s[j].matcher)) by {
        matcher_overlap_is_complete(s[i].matcher, s[j].matcher, pkt);
    }
    let pair = collision_pair(name, s, i, j);
    assert(pair.len() == 1) by {
        reveal(collides);
    }
    let cb = collisions_before(name, s, j, j);
    assert(exists|t: int| 0 <= t < cb.len() && #[trigger] cb[t] == pair[0]) by {
        lemma_group_start(s, j);
        lemma_collisions_before(name, s, j, j);
    }
    let t0 = choose|t: int| 0 <= t < cb.len() && #[trigger] cb[t] == pair[0];
    assert(collision_at(name, s, j)[t0] == pair[0]);
}

proof fn lemma_desired_chain_sorted(c: ChainModel)
    requires
        c.rules.len() <= usize::MAX,
    ensures
        evaluation_sequence(desired_chain(c)) == evaluation_sequence(c),
        ({
            let o = evaluation_order(priorities(c.rules));
            &&& is_evaluation_order(priorities(c.rules), o)
            &&& evaluation_sequence(c).len() == c.rules.len()
            &&& forall|k: int| 0 <= k < o.len() ==> #[trigger] evaluation_sequence(c)[k] == c.rules[o[k] as int]
        }),
{
    let prios = priorities(c.rules);
    evaluation_order_exists(prios);
    let o = evaluation_order(prios);
    let s = evaluation_sequence(c);
    let n = s.len();
    let ps = priorities(s);
    let id = Seq::new(n, |k: int| k as usize);
    assert forall|x: usize| x < ps.len() implies #[trigger] id.contains(x) by {
        assert(id[x as int] == x);
    }
    assert forall|a: int, b: int| 0 <= a < b < id.len() implies runs_before(
        ps,
        #[trigger] id[a] as int,
        #[trigger] id[b] as int,
    ) by {
        assert(runs_before(prios, o[a] as int, o[b] as int));
    }
    assert(is_evaluation_order(ps, id));
    evaluation_order_exists(ps);
    evaluation_order_is_unique(ps, id, evaluation_order(ps));
    assert(evaluation_sequence(desired_chain(c)) =~= s);
}

/// Priority-ordering is idempotent: ordering an already ordered ruleset
/// changes nothing.
pub proof fn desired_ruleset_is_idempotent(rs: RulesetModel)
    requires
        forall|c: int| 0 <= c < rs.chains.len() ==> (#[trigger] rs.chains[c]).rules.len() <= usize::MAX,
    ensures
        desired_ruleset(desired_ruleset(rs)) == desired_ruleset(rs),
{
    let d = desired_ruleset(rs);
    assert forall|c: int| 0 <= c < rs.chains.len() implies #[trigger] desired_chain(d.chains[c])
        == d.chains[c] by {
        lemma_desired_chain_sorted(rs.chains[c]);
        assert(desired_chain(d.chains[c]).rules =~= d.chains[c].rules);
    }
    assert(desired_ruleset(d).chains =~= d.chains);
}

/// A priority-ordered chain holds exactly the original rules, each once per
/// occurrence, listed by non-decreasing priority, with ties in declaration
/// order.
pub proof fn desired_chain_is_stable_sort(c: ChainModel)
    requires
        c.rules.len() <= usize::MAX,
    ensures
        ({
            let d = desired_chain(c).rules;
            let o = evaluation_order(priorities(c.rules));
            &&& d.len() == c.rules.len()
            &&& forall|k: int| 0 <= k < d.len() ==> #[trigger] d[k] == c.rules[o[k] as int]
            &&& forall|i: usize| i < c.rules.len() ==> #[trigger] o.contains(i)
            &&& forall|a: int, b: int| 0 <= a < b < d.len() ==> (#[trigger] d[a]).priority <= (#[trigger] d[b]).priority
            &&& forall|a: int, b: int|
                0 <= a < b < d.len() && d[a].priority == d[b].priority ==> #[trigger] o[a] < #[trigger] o[b]
        }),
{
    lemma_desired_chain_sorted(c);
    let o = evaluation_order(priorities(c.rules));
    let d = desired_chain(c).rules;
    assert forall|a: int, b: int| 0 <= a < b < d.len() implies (#[trigger] d[a]).priority <= (
    #[trigger] d[b]).priority by {
        assert(runs_before(priorities(c.rules), o[a] as int, o[b] as int));
    }
    assert forall|a: int, b: int|
        0 <= a < b < d.len() && d[a].priority == d[b].priority implies #[trigger] o[a] < #[trigger] o[b] by {
        assert(runs_before(priorities(c.rules), o[a] as int, o[b] as int));
    }
}

proof fn lemma_no_duplicate_chains(chains: Seq<ChainModel>, n: nat)
    requires
        n <= chains.len(),
        duplicate_chain_issues(chains, n).len() == 0,
    ensures
        forall|i: int| 0 <= i < n ==> !#[trigger] name_repeats(chains, i),
    decreases n,
{
    if n > 0 {
        lemma_no_duplicate_chains(chains, (n - 1) as nat);
    }
}

proof fn lemma_no_duplicate_ids(ids: Seq<crate::rule::RuleId>, n: nat)
    requires
        n <= ids.len(),
        duplicate_id_issues(ids, n).len() == 0,
    ensures
        forall|i: int| 0 <= i < n ==> !#[trigger] id_repeats(ids, i),
    decreases n,
{
    if n > 0 {
        lemma_no_duplicate_ids(ids, (n - 1) as nat);
    }
}

proof fn lemma_no_chain_issues(chains: Seq<ChainModel>, n: nat)
    requires
        n <= chains.len(),
        all_chain_issues(chains, n).len() == 0,
    ensures
        forall|c: int| 0 <= c < n ==> (#[trigger] chain_issues(chains[c])).len() == 0,
    decreases n,
{
    if n > 0 {
        lemma_no_chain_issues(chains, (n - 1) as nat);
    }
}

proof fn lemma_no_collisions_or_dead(name: Seq<char>, s: Seq<Rule>, n: nat)
    requires
        n <= s.len(),
        collision_issues(name, s, n).len() == 0,
        dead_issues(name, s, n).len() == 0,
    ensures
        forall|j: int| 0 <= j < n ==> (#[trigger] collision_at(name, s, j)).len() == 0,
        forall|j: int| 0 <= j < n ==> (#[trigger] first_shadower(s, j, 0)) is None,
    decreases n,
{
    if n > 0 {
        lemma_no_collisions_or_dead(name, s, (n - 1) as nat);
        assert(dead_at(name, s, n - 1).len() == 0);
        reveal(dead_at);
    }
}

/// A ruleset that verifies is clean: its version is supported, chain names
/// and rule ids are unique, and in every chain no rule is covered by an
/// earlier terminal rule and no two rules of one priority collide.
pub proof fn verified_ruleset_is_clean(rs: RulesetModel)
    requires
        verify_issues(rs).len() == 0,
    ensures
        rs.version <= SCHEMA_VERSION,
        forall|i: int, j: int|
            0 <= i < j < rs.chains.len() ==> (#[trigger] rs.chains[i]).name@ != (#[trigger] rs.chains[j]).name@,
        forall|i: int, j: int|
            0 <= i < j < all_rule_ids(rs.chains).len() ==> #[trigger] all_rule_ids(rs.chains)[i]
                != #[trigger] all_rule_ids(rs.chains)[j],
        forall|c: int, j: int|
            0 <= c < rs.chains.len() && 0 <= j < evaluation_sequence(rs.chains[c]).len() ==> {
                &&& (#[trigger] first_shadower(evaluation_sequence(rs.chains[c]), j, 0)) is None
                &&& collision_at(rs.chains[c].name@, evaluation_sequence(rs.chains[c]), j).len() == 0
            },
{
    let chains = rs.chains;
    let ids = all_rule_ids(chains);
    lemma_no_duplicate_chains(chains, chains.len());
    lemma_no_duplicate_ids(ids, ids.len());
    lemma_no_chain_issues(chains, chains.len());
    assert forall|i: int, j: int| 0 <= i < j < chains.len() implies (#[trigger] chains[i]).name@
        != (#[trigger] chains[j]).name@ by {
        assert(!name_repeats(chains, j));
    }
    assert forall|i: int, j: int| 0 <= i < j < ids.len() implies #[trigger] ids[i] != #[trigger] ids[j] by {
        assert(!id_repeats(ids, j));
    }
    assert forall|c: int, j: int|
        0 <= c < chains.len() && 0 <= j < evaluation_sequence(chains[c]).len() implies {
        &&& (#[trigger] first_shadower(evaluation_sequence(chains[c]), j, 0)) is None
        &&& collision_at(chains[c].name@, evaluation_sequence(chains[c]), j).len() == 0
    } by {
        assert(chain_issues(chains[c]).len() == 0);
        let s = evaluation_sequence(chains[c]);
        lemma_no_collisions_or_dead(chains[c].name@, s, s.len());
    }
}


/// Some issue of the list has kind `k`.
pub open spec fn reports_kind(v: Seq<IssueView>, k: LintKind) -> bool {
    exists|t: int| 0 <= t < v.len() && (#[trigger] v[t]).kind == k
}

proof fn lemma_reports_kind_concat(a: Seq<IssueView>, b: Seq<IssueView>, k: LintKind)
    ensures
        reports_kind(a + b, k) <==> reports_kind(a, k) || reports_kind(b, k),
{
    let ab = a + b;
    if reports_kind(ab, k) {
        let t = choose|t: int| 0 <= t < ab.len() && (#[trigger] ab[t]).kind == k;
        if t < a.len() {
            assert(ab[t] == a[t]);
        } else {
            assert(ab[t] == b[t - a.len()]);
        }
    }
    if reports_kind(a, k) {
        let t = choose|t: int| 0 <= t < a.len() && (#[trigger] a[t]).kind == k;
        assert(ab[t] == a[t]);
    }
    if reports_kind(b, k) {
        let t = choose|t: int| 0 <= t < b.len() && (#[trigger] b[t]).kind == k;
        assert(ab[t + a.len()] == b[t]);
    }
}

proof fn lemma_uniform_kind(v: Seq<IssueView>, k: LintKind)
    requires
        forall|t: int| 0 <= t < v.len() ==> (#[trigger] v[t]).kind == k,
    ensures
        reports_kind(v, k) <==> v.len() > 0,
        forall|k2: LintKind| k2 != k ==> !#[trigger] reports_kind(v, k2),
{
    if v.len() > 0 {
        assert(v[0].kind == k);
    }
}

proof fn lemma_duplicate_chain_issues(chains: Seq<ChainModel>, n: nat)
    ensures
        forall|t: int| 0 <= t < duplicate_chain_issues(chains, n).len()
            ==> (#[trigger] duplicate_chain_issues(chains, n)[t]).kind == LintKind::DuplicateChain,
        duplicate_chain_issues(chains, n).len() > 0 <==> exists|i: int| 0 <= i < n && #[trigger] name_repeats(chains, i),
    decreases n,
{
    if n > 0 {
        lemma_duplicate_chain_issues(chains, (n - 1) as nat);
        let prev = duplicate_chain_issues(chains, (n - 1) as nat);
        let v = duplicate_chain_issues(chains, n);
        assert forall|t: int| 0 <= t < v.len() implies (#[trigger] v[t]).kind == LintKind::DuplicateChain by {
            if t < prev.len() {
                assert(v[t] == prev[t]);
            }
        }
        if name_repeats(chains, n - 1) {
            assert(v.len() > 0);
        }
        if exists|i: int| 0 <= i < n && #[trigger] name_repeats(chains, i) {
            let i = choose|i: int| 0 <= i < n && #[trigger] name_repeats(chains, i);
            if i < n - 1 {
                assert(prev.len() > 0);
            }
        }
    }
}

proof fn lemma_duplicate_id_issues(ids: Seq<RuleId>, n: nat)
    ensures
        forall|t: int| 0 <= t < duplicate_id_issues(ids, n).len()
            ==> (#[trigger] duplicate_id_issues(ids, n)[t]).kind == LintKind::DuplicateRuleId,
        duplicate_id_issues(ids, n).len() > 0 <==> exists|i: int| 0 <= i < n && #[trigger] id_repeats(ids, i),
    decreases n,
{
    if n > 0 {
        lemma_duplicate_id_issues(ids, (n - 1) as nat);
        let prev = duplicate_id_issues(ids, (n - 1) as nat);
        let v = duplicate_id_issues(ids, n);
        assert forall|t: int| 0 <= t < v.len() implies (#[trigger] v[t]).kind == LintKind::DuplicateRuleId by {
            if t < prev.len() {
                assert(v[t] == prev[t]);
            }
        }
        if id_repeats(ids, n - 1) {
            assert(v.len() > 0);
        }
        if exists|i: int| 0 <= i < n && #[trigger] id_repeats(ids, i) {
            let i = choose|i: int| 0 <= i < n && #[trigger] id_repeats(ids, i);
            if i < n - 1 {
                assert(prev.len() > 0);
            }
        }
    }
}

/// The kinds the per-chain checks report.
pub open spec fn is_chain_kind(k: LintKind) -> bool {
    k is PriorityCollision || k is Unreachable || k is Shadowed
}

proof fn lemma_collisions_before_kinds(name: Seq<char>, s: Seq<Rule>, j: int, k: int)
    ensures
        forall|t: int| 0 <= t < collisions_before(name, s, j, k).len()
            ==> (#[trigger] collisions_before(name, s, j, k)[t]).kind == LintKind::PriorityCollision,
    decreases k - group_start(s, j),
{
    if k > group_start(s, j) {
        lemma_collisions_before_kinds(name, s, j, k - 1);
        let prev = collisions_before(name, s, j, k - 1);
        let v = collisions_before(name, s, j, k);
        assert forall|t: int| 0 <= t < v.len() implies (#[trigger] v[t]).kind == LintKind::PriorityCollision by {
            if t < prev.len() {
                assert(v[t] == prev[t]);
            }
        }
    }
}

proof fn lemma_collision_issues_kinds(name: Seq<char>, s: Seq<Rule>, n: nat)
    ensures
        forall|t: int| 0 <= t < collision_issues(name, s, n).len()
            ==> (#[trigger] collision_issues(name, s, n)[t]).kind == LintKind::PriorityCollision,
    decreases n,
{
    if n > 0 {
        lemma_collision_issues_kinds(name, s, (n - 1) as nat);
        lemma_collisions_before_kinds(name, s, n - 1, n - 1);
        let prev = collision_issues(name, s, (n - 1) as nat);
        let cur = collision_at(name, s, n - 1);
        let v = collision_issues(name, s, n);
        assert forall|t: int| 0 <= t < v.len() implies (#[trigger] v[t]).kind == LintKind::PriorityCollision by {
            if t < prev.len() {
                assert(v[t] == prev[t]);
            } else {
                assert(v[t] == cur[t - prev.len()]);
            }
        }
    }
}

proof fn lemma_dead_issues_kinds(name: Seq<char>, s: Seq<Rule>, n: nat)
    ensures
        forall|t: int| 0 <= t < dead_issues(name, s, n).len() ==> {
            let k = (#[trigger] dead_issues(name, s, n)[t]).kind;
            k is Unreachable || k is Shadowed
        },
    decreases n,
{
    if n > 0 {
        lemma_dead_issues_kinds(name, s, (n - 1) as nat);
        let prev = dead_issues(name, s, (n - 1) as nat);
        let v = dead_issues(name, s, n);
        reveal(dead_at);
        assert forall|t: int| 0 <= t < v.len() implies {
            let k = (#[trigger] v[t]).kind;
            k is Unreachable || k is Shadowed
        } by {
            if t < prev.len() {
                assert(v[t] == prev[t]);
            }
        }
    }
}

/// The per-chain lint reports only priority collisions, unreachable rules
/// and shadowed rules.
pub proof fn chain_lint_reports_only_chain_kinds(c: ChainModel)
    ensures
        forall|t: int| 0 <= t < chain_issues(c).len() ==> is_chain_kind(#[trigger] chain_issues(c)[t].kind),
{
    let s = evaluation_sequence(c);
    let cl = collision_issues(c.name@, s, s.len());
    let dl = dead_issues(c.name@, s, s.len());
    lemma_collision_issues_kinds(c.name@, s, s.len());
    lemma_dead_issues_kinds(c.name@, s, s.len());
    let v = chain_issues(c);
    assert forall|t: int| 0 <= t < v.len() implies is_chain_kind(#[trigger] v[t].kind) by {
        if t < cl.len() {
            assert(v[t] == cl[t]);
        } else {
            assert(v[t] == dl[t - cl.len()]);
        }
    }
}

proof fn lemma_all_chain_issues_kinds(chains: Seq<ChainModel>, n: nat)
    ensures
        forall|t: int| 0 <= t < all_chain_issues(chains, n).len()
            ==> is_chain_kind(#[trigger] all_chain_issues(chains, n)[t].kind),
    decreases n,
{
    if n > 0 {
        lemma_all_chain_issues_kinds(chains, (n - 1) as nat);
        chain_lint_reports_only_chain_kinds(chains[n - 1]);
        let prev = all_chain_issues(chains, (n - 1) as nat);
        let cur = chain_issues(chains[n - 1]);
        let v = all_chain_issues(chains, n);
        assert forall|t: int| 0 <= t < v.len() implies is_chain_kind(#[trigger] v[t].kind) by {
            if t < prev.len() {
                assert(v[t] == prev[t]);
            } else {
                assert(v[t] == cur[t - prev.len()]);
            }
        }
    }
}

/// What `verify` reports about the ruleset as a whole, kind by kind: an
/// unsupported-version issue exactly when the version is newer than the
/// supported one, a duplicate-chain issue exactly when two chains share a
/// name, and a duplicate-rule-id issue exactly when two rules, in any
/// chains, share an id.
pub proof fn verify_reports_each_ruleset_problem(rs: RulesetModel)
    ensures
        reports_kind(verify_issues(rs), LintKind::UnsupportedVersion) <==> rs.version > SCHEMA_VERSION,
        reports_kind(verify_issues(rs), LintKind::DuplicateChain) <==> exists|i: int, j: int|
            0 <= i < j < rs.chains.len() && (#[trigger] rs.chains[i]).name@ == (#[trigger] rs.chains[j]).name@,
        reports_kind(verify_issues(rs), LintKind::DuplicateRuleId) <==> exists|i: int, j: int|
            0 <= i < j < all_rule_ids(rs.chains).len() && #[trigger] all_rule_ids(rs.chains)[i]
                == #[trigger] all_rule_ids(rs.chains)[j],
{
    let chains = rs.chains;
    let ids = all_rule_ids(chains);
    let a = version_issues(rs);
    let b = duplicate_chain_issues(chains, chains.len());
    let c = duplicate_id_issues(ids, ids.len());
    let d = all_chain_issues(chains, chains.len());
    assert(verify_issues(rs) == a + b + c + d);
    lemma_duplicate_chain_issues(chains, chains.len());
    lemma_duplicate_id_issues(ids, ids.len());
    lemma_all_chain_issues_kinds(chains, chains.len());
    lemma_uniform_kind(a, LintKind::UnsupportedVersion);
    lemma_uniform_kind(b, LintKind::DuplicateChain);
    lemma_uniform_kind(c, LintKind::DuplicateRuleId);
    let ks = seq![LintKind::UnsupportedVersion, LintKind::DuplicateChain, LintKind::DuplicateRuleId];
    assert forall|x: int| 0 <= x < 3 implies {
        let k = #[trigger] ks[x];
        &&& reports_kind(a + b + c + d, k) <==> (reports_kind(a, k) || reports_kind(b, k) || reports_kind(c, k))
    } by {
        let k = ks[x];
        lemma_reports_kind_concat(a + b + c, d, k);
        lemma_reports_kind_concat(a + b, c, k);
        lemma_reports_kind_concat(a, b, k);
        if reports_kind(d, k) {
            let t = choose|t: int| 0 <= t < d.len() && (#[trigger] d[t]).kind == k;
            assert(is_chain_kind(d[t].kind));
        }
    }
    assert(ks[0] == LintKind::UnsupportedVersion);
    assert(ks[1] == LintKind::DuplicateChain);
    assert(ks[2] == LintKind::DuplicateRuleId);
    if exists|i: int, j: int| 0 <= i < j < chains.len() && (#[trigger] chains[i]).name@ == (#[trigger] chains[j]).name@ {
        let (i, j) = choose|i: int, j: int| 0 <= i < j < chains.len() && (#[trigger] chains[i]).name@
            == (#[trigger] chains[j]).name@;
        assert(name_repeats(chains, j));
    }
    if b.len() > 0 {
        let j = choose|j: int| 0 <= j < chains.len() && #[trigger] name_repeats(chains, j);
        let i = choose|i: int| 0 <= i < j && (#[trigger] chains[i]).name@ == chains[j].name@;
        assert(0 <= i < j < chains.len() && chains[i].name@ == chains[j].name@);
    }
    if exists|i: int, j: int| 0 <= i < j < ids.len() && #[trigger] ids[i] == #[trigger] ids[j] {
        let (i, j) = choose|i: int, j: int| 0 <= i < j < ids.len() && #[trigger] ids[i] == #[trigger] ids[j];
        assert(id_repeats(ids, j));
    }
    if c.len() > 0 {
        let j = choose|j: int| 0 <= j < ids.len() && #[trigger] id_repeats(ids, j);
        let i = choose|i: int| 0 <= i < j && #[trigger] ids[i] == ids[j];
        assert(0 <= i < j < ids.len() && ids[i] == ids[j]);
    }
}


/// The issue names rule `id` as dead (unreachable or shadowed).
pub open spec fn is_dead_issue_of(i: IssueView, id: RuleId) -> bool {
    (i.kind is Unreachable || i.kind is Shadowed) && i.rule == Some(id)
}

proof fn lemma_dead_at(name: Seq<char>, s: Seq<Rule>, k: int)
    requires
        0 <= k < s.len(),
    ensures
        dead_at(name, s, k).len() <= 1,
        dead_at(name, s, k).len() == 1 <==> exists|j: int| 0 <= j < k && #[trigger] shadows(s, j, k),
        dead_at(name, s, k).len() == 1 ==> dead_at(name, s, k)[0].rule == Some(s[k].id),
        dead_at(name, s, k).len() == 1 ==> exists|j: int| {
            &&& 0 <= j < k
            &&& #[trigger] shadows(s, j, k)
            &&& forall|i: int| 0 <= i < j ==> !#[trigger] shadows(s, i, k)
            &&& dead_at(name, s, k)[0].kind == dead_kind(s[j], s[k])
            &&& dead_at(name, s, k)[0].chain == Some(name)
            &&& dead_at(name, s, k)[0].other_rule == Some(s[j].id)
        },
{
    lemma_first_shadower(s, k, 0);
    reveal(dead_at);
    if let Some(j) = first_shadower(s, k, 0) {
        assert(shadows(s, j, k));
    }
}

proof fn lemma_dead_at_rule(name: Seq<char>, s: Seq<Rule>, k: int)
    ensures
        dead_at(name, s, k).len() <= 1,
        dead_at(name, s, k).len() == 1 ==> dead_at(name, s, k)[0].rule == Some(s[k].id),
{
    reveal(dead_at);
}

#[verifier::spinoff_prover]
proof fn lemma_dead_issues(name: Seq<char>, s: Seq<Rule>, n: nat)
    requires
        n <= s.len(),
    ensures
        forall|t: int| 0 <= t < dead_issues(name, s, n).len() ==> exists|p: int|
            0 <= p < n && (#[trigger] dead_at(name, s, p)).len() == 1 && #[trigger] dead_issues(name, s, n)[t]
                == dead_at(name, s, p)[0],
        forall|p: int| 0 <= p < n && (#[trigger] dead_at(name, s, p)).len() == 1 ==> exists|t: int|
            0 <= t < dead_issues(name, s, n).len() && #[trigger] dead_issues(name, s, n)[t] == dead_at(name, s, p)[0],
        (forall|a: int, b: int| 0 <= a < b < s.len() ==> (#[trigger] s[a]).id != (#[trigger] s[b]).id) ==> forall|
            t1: int,
            t2: int,
        | 0 <= t1 < t2 < dead_issues(name, s, n).len() ==> (#[trigger] dead_issues(name, s, n)[t1]).rule
            != (#[trigger] dead_issues(name, s, n)[t2]).rule,
    decreases n,
{
    if n > 0 {
        lemma_dead_issues(name, s, (n - 1) as nat);
        lemma_dead_at_rule(name, s, n - 1);
        let prev = dead_issues(name, s, (n - 1) as nat);
        let cur = dead_at(name, s, n - 1);
        let v = dead_issues(name, s, n);
        assert(v == prev + cur);
        assert forall|t: int| 0 <= t < v.len() implies exists|p: int|
            0 <= p < n && (#[trigger] dead_at(name, s, p)).len() == 1 && #[trigger] v[t] == dead_at(name, s, p)[0] by {
            if t < prev.len() {
                assert(v[t] == prev[t]);
            } else {
                assert(v[t] == cur[0]);
            }
        }
        assert forall|p: int| 0 <= p < n && (#[trigger] dead_at(name, s, p)).len() == 1 implies exists|t: int|
            0 <= t < v.len() && #[trigger] v[t] == dead_at(name, s, p)[0] by {
            if p < n - 1 {
                let t = choose|t: int| 0 <= t < prev.len() && #[trigger] prev[t] == dead_at(name, s, p)[0];
                assert(v[t] == prev[t]);
            } else {
                assert(v[prev.len() as int] == cur[0]);
            }
        }
        if forall|a: int, b: int| 0 <= a < b < s.len() ==> (#[trigger] s[a]).id != (#[trigger] s[b]).id {
            assert forall|t1: int, t2: int| 0 <= t1 < t2 < v.len() implies (#[trigger] v[t1]).rule
                != (#[trigger] v[t2]).rule by {
                if t2 < prev.len() {
                    assert(v[t1] == prev[t1]);
                    assert(v[t2] == prev[t2]);
                } else {
                    assert(v[t1] == prev[t1]);
                    assert(v[t2] == cur[0]);
                    let p = choose|p: int|
                        0 <= p < n - 1 && (#[trigger] dead_at(name, s, p)).len() == 1 && prev[t1] == dead_at(
                            name,
                            s,
                            p,
                        )[0];
                    lemma_dead_at_rule(name, s, p);
                    assert(s[p].id != s[n - 1].id);
                }
            }
        }
    }
}

/// In evaluation order, distinct rule ids of a chain stay distinct.
proof fn lemma_evaluation_ids_distinct(c: ChainModel)
    requires
        c.rules.len() <= usize::MAX,
        forall|a: int, b: int| 0 <= a < b < c.rules.len() ==> (#[trigger] c.rules[a]).id != (#[trigger] c.rules[b]).id,
    ensures
        evaluation_sequence(c).len() == c.rules.len(),
        forall|a: int, b: int|
            0 <= a < b < evaluation_sequence(c).len() ==> (#[trigger] evaluation_sequence(c)[a]).id
                != (#[trigger] evaluation_sequence(c)[b]).id,
{
    lemma_desired_chain_sorted(c);
    let s = evaluation_sequence(c);
    let o = evaluation_order(priorities(c.rules));
    assert forall|a: int, b: int| 0 <= a < b < s.len() implies (#[trigger] s[a]).id != (#[trigger] s[b]).id by {
        assert(runs_before(priorities(c.rules), o[a] as int, o[b] as int));
        assert(o[a] != o[b]);
        assert(s[a] == c.rules[o[a] as int]);
        assert(s[b] == c.rules[o[b] as int]);
        if o[a] < o[b] {
            assert(c.rules[o[a] as int].id != c.rules[o[b] as int].id);
        } else {
            assert(c.rules[o[b] as int].id != c.rules[o[a] as int].id);
        }
    }
}

/// A dead-rule issue of the rule at position `k` (ids being distinct) is
/// the dead-rule issue of position `k`, among the dead-rule issues.
#[verifier::spinoff_prover]
proof fn lemma_dead_issue_position(name: Seq<char>, s: Seq<Rule>, k: int, t: int)
    requires
        forall|a: int, b: int| 0 <= a < b < s.len() ==> (#[trigger] s[a]).id != (#[trigger] s[b]).id,
        0 <= k < s.len(),
        0 <= t < (collision_issues(name, s, s.len()) + dead_issues(name, s, s.len())).len(),
        is_dead_issue_of((collision_issues(name, s, s.len()) + dead_issues(name, s, s.len()))[t], s[k].id),
    ensures
        t >= collision_issues(name, s, s.len()).len(),
        dead_at(name, s, k).len() == 1,
        (collision_issues(name, s, s.len()) + dead_issues(name, s, s.len()))[t] == dead_at(name, s, k)[0],
        dead_issues(name, s, s.len())[t - collision_issues(name, s, s.len()).len()] == dead_at(name, s, k)[0],
{
    let n = s.len();
    let cl = collision_issues(name, s, n);
    let dl = dead_issues(name, s, n);
    let v = cl + dl;
    lemma_collision_issues_kinds(name, s, n);
    lemma_dead_issues(name, s, n);
    if t < cl.len() {
        assert(v[t] == cl[t]);
    } else {
        let u = t - cl.len();
        assert(v[t] == dl[u]);
        let p = choose|p: int| 0 <= p < n && (#[trigger] dead_at(name, s, p)).len() == 1 && dl[u] == dead_at(name, s, p)[0];
        lemma_dead_at_rule(name, s, p);
        if p < k {
            assert(s[p].id != s[k].id);
        } else if k < p {
            assert(s[k].id != s[p].id);
        }
    }
}

/// Dead rules are reported once each, naming the first cover: in a chain
/// whose rule ids are distinct, the rule at position `k` of the evaluation
/// order gets a dead-rule issue exactly when an earlier terminal rule's
/// matcher is decided a superset of its own; it never gets two; and the
/// one it gets names the first such rule, with the kind `dead_kind` gives.
#[verifier::spinoff_prover]
pub proof fn each_dead_rule_is_reported_once(c: ChainModel, k: int)
    requires
        c.rules.len() <= usize::MAX,
        forall|a: int, b: int| 0 <= a < b < c.rules.len() ==> (#[trigger] c.rules[a]).id != (#[trigger] c.rules[b]).id,
        0 <= k < c.rules.len(),
    ensures
        ({
            let s = evaluation_sequence(c);
            let v = chain_issues(c);
            &&& (exists|t: int| 0 <= t < v.len() && is_dead_issue_of(#[trigger] v[t], s[k].id)) <==> (exists|j: int|
                0 <= j < k && #[trigger] shadows(s, j, k))
            &&& forall|t1: int, t2: int|
                0 <= t1 < v.len() && 0 <= t2 < v.len() && is_dead_issue_of(#[trigger] v[t1], s[k].id)
                    && is_dead_issue_of(#[trigger] v[t2], s[k].id) ==> t1 == t2
            &&& forall|t: int| 0 <= t < v.len() && is_dead_issue_of(#[trigger] v[t], s[k].id) ==> exists|j: int| {
                &&& 0 <= j < k
                &&& #[trigger] shadows(s, j, k)
                &&& forall|i: int| 0 <= i < j ==> !#[trigger] shadows(s, i, k)
                &&& v[t].kind == dead_kind(s[j], s[k])
                &&& v[t].chain == Some(c.name@)
                &&& v[t].other_rule == Some(s[j].id)
            }
        }),
{
    lemma_evaluation_ids_distinct(c);
    let s = evaluation_sequence(c);
    let name = c.name@;
    let n = s.len();
    let cl = collision_issues(name, s, n);
    let dl = dead_issues(name, s, n);
    let v = chain_issues(c);
    assert(v == cl + dl);
    lemma_dead_at(name, s, k);
    if exists|j: int| 0 <= j < k && #[trigger] shadows(s, j, k) {
        lemma_dead_issues(name, s, n);
        lemma_dead_at_rule(name, s, k);
        let t0 = choose|t: int| 0 <= t < dl.len() && #[trigger] dl[t] == dead_at(name, s, k)[0];
        assert(v[t0 + cl.len()] == dl[t0]);
        assert(is_dead_issue_of(v[t0 + cl.len()], s[k].id));
    }
    assert forall|t: int| 0 <= t < v.len() && is_dead_issue_of(#[trigger] v[t], s[k].id) implies exists|j: int| {
        &&& 0 <= j < k
        &&& #[trigger] shadows(s, j, k)
        &&& forall|i: int| 0 <= i < j ==> !#[trigger] shadows(s, i, k)
        &&& v[t].kind == dead_kind(s[j], s[k])
        &&& v[t].chain == Some(c.name@)
        &&& v[t].other_rule == Some(s[j].id)
    } by {
        lemma_dead_issue_position(name, s, k, t);
        let j = choose|j: int| {
            &&& 0 <= j < k
            &&& #[trigger] shadows(s, j, k)
            &&& forall|i: int| 0 <= i < j ==> !#[trigger] shadows(s, i, k)
            &&& dead_at(name, s, k)[0].kind == dead_kind(s[j], s[k])
            &&& dead_at(name, s, k)[0].chain == Some(name)
            &&& dead_at(name, s, k)[0].other_rule == Some(s[j].id)
        };
        assert(shadows(s, j, k));
    }
    assert forall|t1: int, t2: int|
        0 <= t1 < v.len() && 0 <= t2 < v.len() && is_dead_issue_of(#[trigger] v[t1], s[k].id)
            && is_dead_issue_of(#[trigger] v[t2], s[k].id) implies t1 == t2 by {
        lemma_dead_issue_position(name, s, k, t1);
        lemma_dead_issue_position(name, s, k, t2);
        lemma_dead_issues(name, s, n);
        let u1 = t1 - cl.len();
        let u2 = t2 - cl.len();
        if u1 < u2 {
            assert(dl[u1].rule != dl[u2].rule);
        } else if u2 < u1 {
            assert(dl[u2].rule != dl[u1].rule);
        }
    }
}

/// Every issue of a chain names that chain, and names as its rule and its
/// other rule two rules of the chain.
pub proof fn chain_issues_name_their_chain_and_rules(c: ChainModel)
    requires
        c.rules.len() <= usize::MAX,
    ensures
        forall|t: int| 0 <= t < chain_issues(c).len() ==> {
            let i = #[trigger] chain_issues(c)[t];
            &&& i.chain == Some(c.name@)
            &&& exists|a: int| 0 <= a < c.rules.len() && i.rule == Some((#[trigger] c.rules[a]).id)
            &&& exists|b: int| 0 <= b < c.rules.len() && i.other_rule == Some((#[trigger] c.rules[b]).id)
        },
{
    lemma_desired_chain_sorted(c);
    let s = evaluation_sequence(c);
    let name = c.name@;
    let n = s.len();
    let o = evaluation_order(priorities(c.rules));
    let cl = collision_issues(name, s, n);
    let dl = dead_issues(name, s, n);
    let v = chain_issues(c);
    assert(v == cl + dl);
    lemma_collision_issues_positions(name, s, n);
    lemma_dead_issues(name, s, n);
    assert forall|t: int| 0 <= t < v.len() implies {
        let i = #[trigger] v[t];
        &&& i.chain == Some(c.name@)
        &&& exists|a: int| 0 <= a < c.rules.len() && i.rule == Some((#[trigger] c.rules[a]).id)
        &&& exists|b: int| 0 <= b < c.rules.len() && i.other_rule == Some((#[trigger] c.rules[b]).id)
    } by {
        let (p, q) = if t < cl.len() {
            assert(v[t] == cl[t]);
            assert(names_rules_among(cl[t], name, s, n as int));
            choose|p: int, q: int| 0 <= p < n && 0 <= q < n && #[trigger] names_positions(cl[t], name, s, p, q)
        } else {
            assert(v[t] == dl[t - cl.len()]);
            let p = choose|p: int|
                0 <= p < n && (#[trigger] dead_at(name, s, p)).len() == 1 && dl[t - cl.len()] == dead_at(name, s, p)[0];
            lemma_dead_at(name, s, p);
            let j = choose|j: int| {
                &&& 0 <= j < p
                &&& #[trigger] shadows(s, j, p)
                &&& forall|i: int| 0 <= i < j ==> !#[trigger] shadows(s, i, p)
                &&& dead_at(name, s, p)[0].kind == dead_kind(s[j], s[p])
                &&& dead_at(name, s, p)[0].chain == Some(name)
                &&& dead_at(name, s, p)[0].other_rule == Some(s[j].id)
            };
            (p, j)
        };
        assert(names_positions(v[t], name, s, p, q));
        assert(s[p] == c.rules[o[p] as int]);
        assert(s[q] == c.rules[o[q] as int]);
        assert(v[t].rule == Some(c.rules[o[p] as int].id));
        assert(v[t].other_rule == Some(c.rules[o[q] as int].id));
    }
}

/// The issue is of chain `name` and names the rules at positions `p` and `q`.
pub open spec fn names_positions(i: IssueView, name: Seq<char>, s: Seq<Rule>, p: int, q: int) -> bool {
    i.chain == Some(name) && i.rule == Some(s[p].id) && i.other_rule == Some(s[q].id)
}

proof fn lemma_collision_issue_position(name: Seq<char>, s: Seq<Rule>, n: nat, t: int) -> (pq: (int, int))
    requires
        n <= s.len(),
        0 <= t < collision_issues(name, s, n).len(),
    ensures
        0 <= pq.0 < n && 0 <= pq.1 < n && names_positions(collision_issues(name, s, n)[t], name, s, pq.0, pq.1),
    decreases n,
{
    let prev = collision_issues(name, s, (n - 1) as nat);
    let cur = collision_at(name, s, n - 1);
    let v = collision_issues(name, s, n);
    assert(v == prev + cur);
    if t < prev.len() {
        assert(v[t] == prev[t]);
        lemma_collision_issue_position(name, s, (n - 1) as nat, t)
    } else {
        lemma_group_start(s, n - 1);
        lemma_collisions_before(name, s, n - 1, n - 1);
        let u = t - prev.len();
        assert(v[t] == cur[u]);
        let i = choose|i: int|
            group_start(s, n - 1) <= i < n - 1 && (#[trigger] collision_pair(name, s, i, n - 1)).len() == 1
                && collisions_before(name, s, n - 1, n - 1)[u] == collision_pair(name, s, i, n - 1)[0];
        assert(collides(s, i, n - 1));
        (i, n - 1)
    }
}

/// The issue is of chain `name` and names two rules among the first `n`
/// positions of `s`.
pub open spec fn names_rules_among(i: IssueView, name: Seq<char>, s: Seq<Rule>, n: int) -> bool {
    exists|p: int, q: int| 0 <= p < n && 0 <= q < n && #[trigger] names_positions(i, name, s, p, q)
}

proof fn lemma_collision_issues_positions(name: Seq<char>, s: Seq<Rule>, n: nat)
    requires
        n <= s.len(),
    ensures
        forall|t: int| 0 <= t < collision_issues(name, s, n).len() ==> names_rules_among(
            #[trigger] collision_issues(name, s, n)[t],
            name,
            s,
            n as int,
        ),
{
    assert forall|t: int| 0 <= t < collision_issues(name, s, n).len() implies names_rules_among(
        #[trigger] collision_issues(name, s, n)[t],
        name,
        s,
        n as int,
    ) by {
        let (p, q) = lemma_collision_issue_position(name, s, n, t);
    }
}


/// Interface sameness is equality of what is admitted: two interface
/// matchers are the same exactly when they admit the same names.
pub proof fn interface_sameness_is_equal_names(i: InterfaceMatcher, j: InterfaceMatcher)
    ensures
        i.same_as(j) <==> forall|name: Seq<char>| #[trigger] i.admits(name) == j.admits(name),
{
    match (i, j) {
        (InterfaceMatcher::Any, InterfaceMatcher::Name(b)) => {
            let w = b@.push('x');
            assert(w.len() != b@.len());
            assert(i.admits(w) != j.admits(w));
        },
        (InterfaceMatcher::Name(a), InterfaceMatcher::Any) => {
            let w = a@.push('x');
            assert(w.len() != a@.len());
            assert(i.admits(w) != j.admits(w));
        },
        (InterfaceMatcher::Name(a), InterfaceMatcher::Name(b)) => {
            assert(i.admits(a@));
        },
        _ => {},
    }
}

/// Matcher sameness is equality of every field: two matchers are the same
/// exactly when their protocols, source and destination addresses and
/// ports are equal and their interface matchers admit the same names.
/// Every matcher is the same as itself, and the same matchers admit the
/// same packets.
pub proof fn matcher_sameness_is_field_equality(m: Matcher, n: Matcher)
    ensures
        m.same_as(n) <==> {
            &&& m.protocol == n.protocol
            &&& m.src_addr == n.src_addr
            &&& m.dst_addr == n.dst_addr
            &&& m.src_port == n.src_port
            &&& m.dst_port == n.dst_port
            &&& forall|x: Seq<char>| #[trigger] m.in_interface.admits(x) == n.in_interface.admits(x)
            &&& forall|x: Seq<char>| #[trigger] m.out_interface.admits(x) == n.out_interface.admits(x)
        },
        m.same_as(n) ==> forall|p: Packet| #[trigger] m.admits(p) == n.admits(p),
        m.same_as(m),
{
    interface_sameness_is_equal_names(m.in_interface, n.in_interface);
    interface_sameness_is_equal_names(m.out_interface, n.out_interface);
    interface_sameness_is_equal_names(m.in_interface, m.in_interface);
    interface_sameness_is_equal_names(m.out_interface, m.out_interface);
    if m.same_as(n) {
        assert forall|p: Packet| #[trigger] m.admits(p) == n.admits(p) by {
            assert(m.in_interface.admits(p.in_interface@) == n.in_interface.admits(p.in_interface@));
            assert(m.out_interface.admits(p.out_interface@) == n.out_interface.admits(p.out_interface@));
        }
    }
}

/// The kind of a dead rule: covered by a terminal rule, it is reported
/// `Shadowed` exactly when its matcher is the same as its cover's and its
/// action differs; in particular a rule that admits fewer packets than its
/// cover is reported `Unreachable`.
pub proof fn dead_kind_follows_matcher_and_action(earlier: Rule, later: Rule, pkt: Packet)
    requires
        earlier.action.spec_is_terminal(),
    ensures
        dead_kind(earlier, later) is Shadowed <==> earlier.matcher.same_as(later.matcher) && earlier.action
            != later.action,
        dead_kind(earlier, later) is Shadowed || dead_kind(earlier, later) is Unreachable,
        earlier.matcher.admits(pkt) && !later.matcher.admits(pkt) ==> dead_kind(earlier, later) is Unreachable,
{
    matcher_sameness_is_field_equality(earlier.matcher, later.matcher);
}


/// Priority-ordering keeps each chain's frame: the ordered ruleset has the
/// same version and the same number of chains, and every chain keeps its
/// position, its name and its default policy, with its rules stably
/// sorted by priority.
pub proof fn priority_ordering_keeps_chain_frames(rs: RulesetModel)
    requires
        forall|c: int| 0 <= c < rs.chains.len() ==> (#[trigger] rs.chains[c]).rules.len() <= usize::MAX,
    ensures
        desired_ruleset(rs).version == rs.version,
        desired_ruleset(rs).chains.len() == rs.chains.len(),
        forall|c: int| 0 <= c < rs.chains.len() ==> {
            let d = #[trigger] desired_ruleset(rs).chains[c];
            &&& d.name@ == rs.chains[c].name@
            &&& d.default_policy == rs.chains[c].default_policy
            &&& d.rules.len() == rs.chains[c].rules.len()
            &&& forall|a: int, b: int|
                0 <= a < b < d.rules.len() ==> (#[trigger] d.rules[a]).priority <= (#[trigger] d.rules[b]).priority
        },
{
    assert forall|c: int| 0 <= c < rs.chains.len() implies {
        let d = #[trigger] desired_ruleset(rs).chains[c];
        &&& d.name@ == rs.chains[c].name@
        &&& d.default_policy == rs.chains[c].default_policy
        &&& d.rules.len() == rs.chains[c].rules.len()
        &&& forall|a: int, b: int|
            0 <= a < b < d.rules.len() ==> (#[trigger] d.rules[a]).priority <= (#[trigger] d.rules[b]).priority
    } by {
        desired_chain_is_stable_sort(rs.chains[c]);
    }
}


/// Number of rules over a list of chains.
pub open spec fn total_rules(chains: Seq<Chain>) -> nat
    decreases chains.len(),
{
    if chains.len() == 0 {
        0
    } else {
        total_rules(chains.drop_last()) + chains.last().rules@.len()
    }
}

proof fn lemma_total_rules(chains: Seq<Chain>)
    ensures
        chain_rule_pairs(chains).len() == total_rules(chains),
    decreases chains.len(),
{
    if chains.len() > 0 {
        lemma_total_rules(chains.drop_last());
    }
}

/// The validate reply reads back as the ruleset's figures: after
/// `ok: version ` come the digits of its version, after `, ` those of its
/// number of chains, after ` chain(s), ` those of its number of rules over
/// all chains, then ` rule(s)`.
pub proof fn validate_reply_reads_back(rs: Ruleset)
    ensures
        exists|v: Seq<char>, c: Seq<char>, r: Seq<char>|
            #![trigger reads_as(v, rs.version as nat), reads_as(c, rs.chains@.len()), reads_as(r, total_rules(rs.chains@))]
            {
            &&& reads_as(v, rs.version as nat)
            &&& reads_as(c, rs.chains@.len())
            &&& reads_as(r, total_rules(rs.chains@))
            &&& validated_text(rs@, chain_rule_pairs(rs.chains@).len()) == "ok: version "@ + v + ", "@ + c
                + " chain(s), "@ + r + " rule(s)"@
        },
{
    lemma_total_rules(rs.chains@);
    decimal_reads_back(rs.version as nat);
    decimal_reads_back(rs.chains@.len());
    decimal_reads_back(total_rules(rs.chains@));
    assert(rs@.chains.len() == rs.chains@.len());
    let v = decimal(rs.version as nat);
    let c = decimal(rs.chains@.len());
    let r = decimal(total_rules(rs.chains@));
    assert(reads_as(v, rs.version as nat) && reads_as(c, rs.chains@.len()) && reads_as(r, total_rules(rs.chains@)));
}

/// The CLI's validate line reads back as the file and the ruleset's
/// figures: `ok: `, the file, ` (version ` and the digits of its version,
/// `, ` and those of its number of chains, ` chain(s), ` and those of its
/// number of rules over all chains, then ` rule(s))`.
pub proof fn validate_line_reads_back(file: Seq<char>, rs: Ruleset)
    ensures
        exists|v: Seq<char>, c: Seq<char>, r: Seq<char>|
            #![trigger reads_as(v, rs.version as nat), reads_as(c, rs.chains@.len()), reads_as(r, total_rules(rs.chains@))]
            {
            &&& reads_as(v, rs.version as nat)
            &&& reads_as(c, rs.chains@.len())
            &&& reads_as(r, total_rules(rs.chains@))
            &&& validated_line(file, rs) == "ok: "@ + file + " (version "@ + v + ", "@ + c + " chain(s), "@ + r
                + " rule(s))"@
        },
{
    lemma_total_rules(rs.chains@);
    decimal_reads_back(rs.version as nat);
    decimal_reads_back(rs.chains@.len());
    decimal_reads_back(total_rules(rs.chains@));
    let v = decimal(rs.version as nat);
    let c = decimal(rs.chains@.len());
    let r = decimal(total_rules(rs.chains@));
    assert(reads_as(v, rs.version as nat) && reads_as(c, rs.chains@.len()) && reads_as(r, total_rules(rs.chains@)));
}

/// The CLI's apply and reload lines read back as the apply outcome: the
/// version, chain count, rule count and planned changes, each in its place.
pub proof fn apply_lines_read_back(a: ApplyOutcome)
    ensures
        exists|v: Seq<char>, c: Seq<char>, r: Seq<char>, p: Seq<char>|
            #![trigger reads_as(v, a.version as nat), reads_as(c, a.chains as nat), reads_as(r, a.rules as nat), reads_as(p, a.planned_changes as nat)]
            {
            &&& reads_as(v, a.version as nat)
            &&& reads_as(c, a.chains as nat)
            &&& reads_as(r, a.rules as nat)
            &&& reads_as(p, a.planned_changes as nat)
            &&& applied_line(a) == "applied: version "@ + v + ", "@ + c + " chain(s), "@ + r + " rule(s), "@ + p
                + " planned change(s)"@
            &&& reloaded_line(a) == "reloaded: version "@ + v + ", "@ + r + " rule(s), "@ + p
                + " planned change(s)"@
        },
{
    decimal_reads_back(a.version as nat);
    decimal_reads_back(a.chains as nat);
    decimal_reads_back(a.rules as nat);
    decimal_reads_back(a.planned_changes as nat);
    let v = decimal(a.version as nat);
    let c = decimal(a.chains as nat);
    let r = decimal(a.rules as nat);
    let p = decimal(a.planned_changes as nat);
    assert(reads_as(v, a.version as nat) && reads_as(c, a.chains as nat) && reads_as(r, a.rules as nat) && reads_as(
        p,
        a.planned_changes as nat,
    ));
}


/// The lint messages read back as their figures: the ruleset's version and
/// the supported one, the repeated rule id, the shared priority, and the
/// covering rule's id and priority, each in its place.
pub proof fn lint_messages_read_back(version: u64, id: RuleId, priority: u32, earlier: Rule)
    ensures
        exists|v: Seq<char>, s: Seq<char>| #![trigger reads_as(v, version as nat), reads_as(s, SCHEMA_VERSION as nat)]
            {
            &&& reads_as(v, version as nat)
            &&& reads_as(s, SCHEMA_VERSION as nat)
            &&& version_message(version) == "ruleset version "@ + v + " is newer than supported version "@ + s
        },
        exists|d: Seq<char>| #![trigger reads_as(d, id.0 as nat)]
            reads_as(d, id.0 as nat) && duplicate_id_message(id) == "rule id "@ + d + " is used more than once"@,
        exists|d: Seq<char>| #![trigger reads_as(d, priority as nat)]
            reads_as(d, priority as nat) && collision_message(priority) == "rules share priority "@ + d
                + " and overlapping matchers; evaluation order between them is undefined"@,
        exists|i: Seq<char>, q: Seq<char>| #![trigger reads_as(i, earlier.id.0 as nat), reads_as(q, earlier.priority as nat)]
            {
            &&& reads_as(i, earlier.id.0 as nat)
            &&& reads_as(q, earlier.priority as nat)
            &&& shadowed_message(earlier) == "same matcher as rule "@ + i + " (priority "@ + q
                + "), which is terminal ("@ + spec_action_label(earlier.action) + "); this rule can never fire"@
            &&& unreachable_message(earlier) == "matcher is a subset of rule "@ + i + " (priority "@ + q
                + ", terminal "@ + spec_action_label(earlier.action)
                + "); every packet this rule would match is already consumed"@
        },
{
    decimal_reads_back(version as nat);
    decimal_reads_back(SCHEMA_VERSION as nat);
    decimal_reads_back(id.0 as nat);
    decimal_reads_back(priority as nat);
    decimal_reads_back(earlier.id.0 as nat);
    decimal_reads_back(earlier.priority as nat);
    assert(reads_as(decimal(version as nat), version as nat));
    assert(reads_as(decimal(SCHEMA_VERSION as nat), SCHEMA_VERSION as nat));
    assert(reads_as(decimal(id.0 as nat), id.0 as nat));
    assert(reads_as(decimal(priority as nat), priority as nat));
    assert(reads_as(decimal(earlier.id.0 as nat), earlier.id.0 as nat));
    assert(reads_as(decimal(earlier.priority as nat), earlier.priority as nat));
}


/// The CLI's status lines read back as the status: the version line holds
/// the version's digits, the chains and rules lines their counts, and the
/// last-apply line that apply's version, rule count and changes.
pub proof fn status_lines_read_back(st: StatusPayload)
    ensures
        st.version matches Some(v) ==> exists|d: Seq<char>| #![trigger reads_as(d, v as nat)]
            reads_as(d, v as nat) && status_lines(st)[2] == "version: "@ + d,
        st.chains matches Some(c) ==> st.rules matches Some(r) ==> exists|dc: Seq<char>, dr: Seq<char>|
            #![trigger reads_as(dc, c as nat), reads_as(dr, r as nat)]
            {
            let k: int = if st.version is Some { 3 } else { 2 };
            &&& reads_as(dc, c as nat)
            &&& reads_as(dr, r as nat)
            &&& status_lines(st)[k] == "chains:  "@ + dc
            &&& status_lines(st)[k + 1] == "rules:   "@ + dr
        },
        st.last_apply matches Some(a) ==> exists|dv: Seq<char>, dr: Seq<char>, dp: Seq<char>|
            #![trigger reads_as(dv, a.version as nat), reads_as(dr, a.rules as nat), reads_as(dp, a.planned_changes as nat)]
            {
            &&& reads_as(dv, a.version as nat)
            &&& reads_as(dr, a.rules as nat)
            &&& reads_as(dp, a.planned_changes as nat)
            &&& status_lines(st).last() == "last apply: version "@ + dv + ", "@ + dr + " rule(s), "@ + dp
                + " change(s)"@
        },
{
    if let Some(v) = st.version {
        decimal_reads_back(v as nat);
        assert(reads_as(decimal(v as nat), v as nat));
    }
    if let (Some(c), Some(r)) = (st.chains, st.rules) {
        decimal_reads_back(c as nat);
        decimal_reads_back(r as nat);
        assert(reads_as(decimal(c as nat), c as nat) && reads_as(decimal(r as nat), r as nat));
    }
    if let Some(a) = st.last_apply {
        decimal_reads_back(a.version as nat);
        decimal_reads_back(a.rules as nat);
        decimal_reads_back(a.planned_changes as nat);
        assert(reads_as(decimal(a.version as nat), a.version as nat) && reads_as(decimal(a.rules as nat), a.rules as nat)
            && reads_as(decimal(a.planned_changes as nat), a.planned_changes as nat));
    }
}

} // verus!
