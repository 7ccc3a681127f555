//! Matcher decisions on concrete addresses, ports, interfaces and protocols.

use portcullis::{
    AddressMatcher, InterfaceMatcher, IpAddr, Matcher, PortMatcher, PortRange, Protocol,
};

fn v4(a: u8, b: u8, c: u8, d: u8) -> IpAddr {
    IpAddr::v4(a, b, c, d)
}

fn cidr(addr: IpAddr, prefix: u8) -> AddressMatcher {
    AddressMatcher::Cidr { addr, prefix }
}

fn range(start: IpAddr, end: IpAddr) -> AddressMatcher {
    AddressMatcher::Range { start, end }
}

#[test]
fn ip_constructors_give_numeric_values() {
    assert_eq!(v4(192, 0, 2, 1), IpAddr::V4(0xC000_0201));
    assert_eq!(v4(255, 255, 255, 255), IpAddr::V4(u32::MAX));
    assert_eq!(
        IpAddr::v6([0x2001, 0xdb8, 0, 0, 0, 0, 0, 1]),
        IpAddr::V6(0x2001_0db8_0000_0000_0000_0000_0000_0001)
    );
    assert_eq!(IpAddr::v6([0xffff; 8]), IpAddr::V6(u128::MAX));
    assert!(v4(10, 0, 0, 1).is_ipv4());
    assert!(!IpAddr::V6(1).is_ipv4());
}

#[test]
fn nested_cidr_blocks() {
    let wide = cidr(v4(10, 0, 0, 0), 8);
    let narrow = cidr(v4(10, 1, 0, 0), 16);
    assert!(wide.is_superset_of(&narrow));
    assert!(!narrow.is_superset_of(&wide));
    assert!(wide.overlaps(&narrow));
    assert!(narrow.overlaps(&wide));
    let other = cidr(v4(11, 0, 0, 0), 8);
    assert!(!wide.is_superset_of(&other));
    assert!(!wide.overlaps(&other));
}

#[test]
fn cidr_prefix_edges() {
    // /0 covers the whole family, /32 a single address.
    let all = cidr(v4(1, 2, 3, 4), 0);
    assert!(all.is_superset_of(&AddressMatcher::Single(v4(200, 1, 1, 1))));
    let one = cidr(v4(1, 2, 3, 4), 32);
    assert!(one.is_superset_of(&AddressMatcher::Single(v4(1, 2, 3, 4))));
    assert!(!one.is_superset_of(&AddressMatcher::Single(v4(1, 2, 3, 5))));
    // A prefix longer than the family's width matches nothing.
    let bad = cidr(v4(1, 2, 3, 4), 33);
    assert!(!bad.is_superset_of(&AddressMatcher::Single(v4(1, 2, 3, 4))));
    assert!(!bad.is_superset_of(&bad));
    // IPv6 /0 and /128.
    let all6 = cidr(IpAddr::V6(5), 0);
    assert!(all6.is_superset_of(&AddressMatcher::Single(IpAddr::V6(u128::MAX))));
    assert!(!all6.is_superset_of(&AddressMatcher::Single(v4(1, 1, 1, 1))));
    let one6 = cidr(IpAddr::V6(7), 128);
    assert!(one6.overlaps(&AddressMatcher::Single(IpAddr::V6(7))));
}

#[test]
fn ranges_against_blocks() {
    let r = range(v4(192, 0, 2, 0), v4(192, 0, 2, 255));
    let block = cidr(v4(192, 0, 2, 77), 24);
    assert!(r.is_superset_of(&block));
    assert!(block.is_superset_of(&r));
    let half = range(v4(192, 0, 2, 0), v4(192, 0, 2, 127));
    assert!(!half.is_superset_of(&block));
    assert!(half.overlaps(&block));
    assert!(block.overlaps(&half));
    let apart = range(v4(192, 0, 3, 0), v4(192, 0, 3, 9));
    assert!(!apart.overlaps(&block));
    assert!(!block.overlaps(&apart));
}

#[test]
fn ranges_against_ranges_and_singles() {
    let r1 = range(v4(10, 0, 0, 1), v4(10, 0, 0, 100));
    let r2 = range(v4(10, 0, 0, 5), v4(10, 0, 0, 50));
    let r3 = range(v4(10, 0, 0, 101), v4(10, 0, 0, 200));
    assert!(r1.is_superset_of(&r2));
    assert!(!r2.is_superset_of(&r1));
    assert!(r1.overlaps(&r2));
    assert!(!r1.overlaps(&r3));
    assert!(r1.is_superset_of(&AddressMatcher::Single(v4(10, 0, 0, 1))));
    assert!(!r1.is_superset_of(&AddressMatcher::Single(IpAddr::V6(1))));
    assert!(!r1.is_superset_of(&AddressMatcher::Any));
    assert!(AddressMatcher::Any.is_superset_of(&r1));
    assert!(AddressMatcher::Any.overlaps(&r3));
}

#[test]
fn single_address_covers_only_itself() {
    // A single address is a superset of a range or block only when that
    // range or block holds exactly that address.
    let s = AddressMatcher::Single(v4(10, 0, 0, 5));
    assert!(!s.is_superset_of(&range(v4(10, 0, 0, 0), v4(10, 0, 0, 255))));
    assert!(!s.is_superset_of(&range(v4(10, 0, 0, 1), v4(10, 0, 0, 9))));
    assert!(!AddressMatcher::Single(v4(10, 0, 0, 1)).is_superset_of(&cidr(v4(10, 0, 0, 0), 24)));
    assert!(!s.is_superset_of(&cidr(v4(10, 0, 1, 0), 24)));
    assert!(s.is_superset_of(&range(v4(10, 0, 0, 5), v4(10, 0, 0, 5))));
    assert!(s.is_superset_of(&cidr(v4(10, 0, 0, 5), 32)));
    assert!(!s.is_superset_of(&cidr(v4(10, 0, 0, 4), 31)));
    assert!(s.is_superset_of(&AddressMatcher::Single(v4(10, 0, 0, 5))));
    assert!(!s.is_superset_of(&AddressMatcher::Single(v4(10, 0, 0, 6))));
    // It still overlaps the spans that hold it.
    assert!(s.overlaps(&range(v4(10, 0, 0, 0), v4(10, 0, 0, 255))));
    assert!(s.overlaps(&cidr(v4(10, 0, 0, 0), 24)));
    assert!(!s.overlaps(&cidr(v4(10, 0, 1, 0), 24)));
}

#[test]
fn port_decisions() {
    let any = PortMatcher::Any;
    let p22 = PortMatcher::Single(22);
    let low = PortMatcher::Range(PortRange::new(0, 1023).unwrap());
    let mid = PortMatcher::Range(PortRange::new(20, 30).unwrap());
    let high = PortMatcher::Range(PortRange::new(1024, 65535).unwrap());
    assert!(any.is_superset_of(&p22));
    assert!(!p22.is_superset_of(&any));
    assert!(low.is_superset_of(&p22));
    assert!(low.is_superset_of(&mid));
    assert!(!mid.is_superset_of(&low));
    assert!(low.overlaps(&mid));
    assert!(!low.overlaps(&high));
    assert!(!PortMatcher::Single(80).overlaps(&p22));
    let r80_90 = PortMatcher::Range(PortRange::new(80, 90).unwrap());
    let r80 = PortMatcher::Range(PortRange::new(80, 80).unwrap());
    assert!(!PortMatcher::Single(80).is_superset_of(&r80_90));
    assert!(PortMatcher::Single(80).is_superset_of(&r80));
    assert!(r80_90.is_superset_of(&PortMatcher::Single(80)));
    assert!(PortMatcher::Single(80).overlaps(&r80_90));
    assert!(!PortMatcher::Single(91).overlaps(&r80_90));
    assert_eq!(PortRange::new(5, 4), None);
    assert_eq!(PortRange::new(4, 4), Some(PortRange { start: 4, end: 4 }));
}

#[test]
fn interface_and_protocol_decisions() {
    let eth0 = InterfaceMatcher::Name("eth0".into());
    let eth1 = InterfaceMatcher::Name("eth1".into());
    assert!(InterfaceMatcher::Any.is_superset_of(&eth0));
    assert!(!eth0.is_superset_of(&InterfaceMatcher::Any));
    assert!(eth0.is_superset_of(&eth0.clone()));
    assert!(!eth0.overlaps(&eth1));
    assert!(eth0.overlaps(&InterfaceMatcher::Any));

    assert!(Protocol::Any.allows_all(&Protocol::Tcp));
    assert!(Protocol::Tcp.allows_all(&Protocol::Tcp));
    assert!(!Protocol::Tcp.allows_all(&Protocol::Any));
    assert!(!Protocol::Number(6).allows_all(&Protocol::Any));
    // Named protocols and their IANA numbers stand for the same packets.
    assert!(Protocol::Tcp.allows_all(&Protocol::Number(6)));
    assert!(Protocol::Number(6).allows_all(&Protocol::Tcp));
    assert!(Protocol::Number(17).allows_all(&Protocol::Udp));
    assert!(!Protocol::Tcp.allows_all(&Protocol::Number(17)));
    assert!(Protocol::Tcp.overlaps(&Protocol::Number(6)));
    assert!(Protocol::Number(17).overlaps(&Protocol::Udp));
    assert!(Protocol::Icmp.overlaps(&Protocol::Number(1)));
    assert!(Protocol::Number(58).overlaps(&Protocol::Icmpv6));
    assert!(!Protocol::Icmp.overlaps(&Protocol::Icmpv6));
    assert!(!Protocol::Number(6).overlaps(&Protocol::Udp));
    assert!(Protocol::Udp.overlaps(&Protocol::Any));
    assert!(!Protocol::Udp.overlaps(&Protocol::Tcp));
    assert_eq!(Protocol::Tcp.number(), Some(6));
    assert_eq!(Protocol::Udp.number(), Some(17));
    assert_eq!(Protocol::Icmp.number(), Some(1));
    assert_eq!(Protocol::Icmpv6.number(), Some(58));
    assert_eq!(Protocol::Number(47).number(), Some(47));
    assert_eq!(Protocol::Any.number(), None);
}

#[test]
fn matcher_fieldwise_decisions() {
    let any = Matcher::any();
    let ssh = Matcher {
        protocol: Protocol::Tcp,
        dst_port: PortMatcher::Single(22),
        ..Matcher::any()
    };
    let ssh_from_lan = Matcher {
        src_addr: cidr(v4(192, 168, 0, 0), 16),
        ..ssh.clone()
    };
    let dns = Matcher {
        protocol: Protocol::Udp,
        dst_port: PortMatcher::Single(53),
        ..Matcher::any()
    };
    assert!(any.is_superset_of(&ssh));
    assert!(ssh.is_superset_of(&ssh_from_lan));
    assert!(!ssh_from_lan.is_superset_of(&ssh));
    assert!(ssh.overlaps(&ssh_from_lan));
    assert!(!ssh.overlaps(&dns));
    assert!(any.overlaps(&dns));
}

#[test]
fn defaults_are_wildcards() {
    assert_eq!(Matcher::default(), Matcher::any());
    assert_eq!(Protocol::default(), Protocol::Any);
    assert_eq!(AddressMatcher::default(), AddressMatcher::Any);
    assert_eq!(PortMatcher::default(), PortMatcher::Any);
    assert_eq!(InterfaceMatcher::default(), InterfaceMatcher::Any);
}

#[test]
fn overlapping_valid_matchers_share_an_address() {
    let block = cidr(v4(10, 0, 0, 0), 24);
    let r = range(v4(10, 0, 0, 200), v4(10, 0, 1, 5));
    assert!(block.overlaps(&r) && r.overlaps(&block));
    // 10.0.0.200, the later of the block's first address and the range's
    // start, lies in both.
    let shared = AddressMatcher::Single(v4(10, 0, 0, 200));
    assert!(block.is_superset_of(&shared) && r.is_superset_of(&shared));
    let r2 = range(v4(10, 0, 0, 250), v4(10, 0, 0, 251));
    assert!(r.overlaps(&r2));
    assert!(r2.is_superset_of(&AddressMatcher::Single(v4(10, 0, 0, 250))));
    // A block whose prefix exceeds the family's width admits nothing: the
    // wildcard is still decided to overlap it, another such block is not.
    let empty = cidr(v4(1, 2, 3, 4), 33);
    assert!(AddressMatcher::Any.overlaps(&empty));
    assert!(!empty.overlaps(&empty));
    assert!(!empty.overlaps(&AddressMatcher::Single(v4(1, 2, 3, 4))));
}
