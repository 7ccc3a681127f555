//! IP addresses as plain numbers, and the address arithmetic the address
//! matchers need: family, total order, inclusive ranges and CIDR blocks.
//!
//! An address is its family plus its numeric value (big-endian reading of
//! its octets), so comparing values compares addresses octet by octet.

use vstd::prelude::*;
use vstd::arithmetic::power2::{pow2, lemma_pow2_adds, lemma_pow2_pos, lemma_pow2_strictly_increases, lemma2_to64};
use vstd::arithmetic::div_mod::{
    lemma_basic_div, lemma_div_denominator, lemma_div_is_ordered, lemma_fundamental_div_mod,
    lemma_multiply_divide_lt, lemma_remainder,
};
use vstd::arithmetic::mul::{lemma_mul_inequality, lemma_mul_is_distributive_add_other_way};

verus! {

/// An IPv4 or IPv6 address, held as its numeric value.
#[derive(Debug, Clone, Copy, PartialEq, Eq, Structural)]
pub enum IpAddr {
    /// IPv4 address; the octets `a.b.c.d` are the value `a*2^24 + b*2^16 + c*2^8 + d`.
    V4(u32),
    /// IPv6 address; the eight 16-bit segments read big-endian.
    V6(u128),
}

impl IpAddr {
    /// Whether the address is IPv4.
    pub open spec fn is_v4(self) -> bool {
        self is V4
    }

    /// Number of bits in an address of this family.
    pub open spec fn bits(self) -> nat {
        if self is V4 { 32 } else { 128 }
    }

    /// The numeric value of the address.
    pub open spec fn value(self) -> nat {
        match self {
            IpAddr::V4(x) => x as nat,
            IpAddr::V6(x) => x as nat,
        }
    }

    /// The IPv4 address `a.b.c.d`.
    pub fn v4(a: u8, b: u8, c: u8, d: u8) -> (r: IpAddr)
        ensures
            r is V4,
            r.value() == a as int * 0x100_0000 + b as int * 0x1_0000 + c as int * 0x100 + d as int,
    {
        let v: u32 = (a as u32) * 0x100_0000 + (b as u32) * 0x1_0000 + (c as u32) * 0x100 + (d as u32);
        IpAddr::V4(v)
    }

    /// The IPv6 address with the given eight 16-bit segments (first is most significant).
    pub fn v6(segments: [u16; 8]) -> (r: IpAddr)
        ensures
            r is V6,
            r.value() == v6_value(segments@),
    {
        let mut v: u128 = 0;
        let mut i: usize = 0;
        proof {
            lemma2_to64();
        }
        while i < 8
            invariant
                0 <= i <= 8,
                segments@.len() == 8,
                v == v6_value(segments@.take(i as int)),
                v < pow2(16 * i as nat),
            decreases 8 - i,
        {
            proof {
                lemma_pow2_adds(16 * i as nat, 16);
                lemma2_to64();
                lemma_pow2_16i_bound(i as nat);
                lemma_pow2_128();
                assert(segments@.take(i + 1).drop_last() == segments@.take(i as int));
                lemma_mul_inequality(v as int, pow2(16 * i as nat) - 1, 0x1_0000);
                assert((pow2(16 * i as nat) - 1) * 0x1_0000 == pow2(16 * i as nat) * 0x1_0000 - 0x1_0000)
                    by (nonlinear_arith);
                assert(16 * (i + 1) == 16 * i + 16);
                assert(pow2(16) == 0x1_0000);
                assert(pow2(16 * i as nat + 16) == pow2(16 * i as nat) * 0x1_0000);
                assert(v as int * 0x1_0000 <= pow2(16 * i as nat + 16) - 0x1_0000);
                assert(v as int * 0x1_0000 + 0xffff < pow2(128));
            }
            v = v * 0x1_0000 + (segments[i] as u128);
            i = i + 1;
        }
        assert(segments@.take(8) == segments@);
        IpAddr::V6(v)
    }

    /// Returns `true` for an IPv4 address.
    pub fn is_ipv4(&self) -> (r: bool)
        ensures
            r == self.is_v4(),
    {
        match self {
            IpAddr::V4(_) => true,
            IpAddr::V6(_) => false,
        }
    }

    pub(crate) fn raw(&self) -> (r: u128)
        ensures
            r == self.value(),
    {
        match self {
            IpAddr::V4(x) => *x as u128,
            IpAddr::V6(x) => *x,
        }
    }

    pub(crate) fn width(&self) -> (r: u8)
        ensures
            r == self.bits(),
    {
        match self {
            IpAddr::V4(_) => 32,
            IpAddr::V6(_) => 128,
        }
    }
}

/// Big-endian value of a run of 16-bit segments.
pub open spec fn v6_value(s: Seq<u16>) -> nat
    decreases s.len(),
{
    if s.len() == 0 {
        0
    } else {
        v6_value(s.drop_last()) * 0x1_0000 + s.last() as nat
    }
}

proof fn lemma_pow2_16i_bound(i: nat)
    requires
        i < 8,
    ensures
        pow2(16 * i + 16) <= pow2(128),
{
    if 16 * i + 16 < 128 {
        lemma_pow2_strictly_increases(16 * i + 16, 128);
    }
    lemma_pow2_128();
}

/// `2^128`, the size of the IPv6 address space.
pub proof fn lemma_pow2_128()
    ensures
        pow2(128) == 0x1_0000_0000_0000_0000_0000_0000_0000_0000,
        pow2(32) == 0x1_0000_0000,
{
    lemma2_to64();
    lemma_pow2_adds(64, 64);
}

/// Every address value is below `2^bits` of its family.
pub proof fn lemma_value_bound(a: IpAddr)
    ensures
        a.value() < pow2(a.bits()),
{
    lemma_pow2_128();
}

/// Same address family.
pub open spec fn same_family(a: IpAddr, b: IpAddr) -> bool {
    a.is_v4() == b.is_v4()
}

/// Total order on addresses: every IPv4 address before every IPv6 address,
/// then by numeric value.
pub open spec fn addr_le(a: IpAddr, b: IpAddr) -> bool {
    if a.is_v4() != b.is_v4() {
        a.is_v4()
    } else {
        a.value() <= b.value()
    }
}

/// `a` lies in the inclusive range `[start, end]`, all three of one family.
pub open spec fn in_range(a: IpAddr, start: IpAddr, end: IpAddr) -> bool {
    same_family(a, start) && same_family(a, end) && addr_le(start, a) && addr_le(a, end)
}

/// Number of host bits of a prefix length in an address family.
pub open spec fn host_bits(net: IpAddr, prefix: u8) -> nat {
    (net.bits() - prefix) as nat
}

/// `a` lies in the CIDR block `net/prefix`: same family, prefix within the
/// family's width, and the same leading `prefix` bits.
pub open spec fn in_cidr(a: IpAddr, net: IpAddr, prefix: u8) -> bool {
    &&& same_family(a, net)
    &&& prefix <= net.bits()
    &&& a.value() / pow2(host_bits(net, prefix)) == net.value() / pow2(host_bits(net, prefix))
}

/// The address of `like`'s family with value `v`.
pub open spec fn with_value(like: IpAddr, v: nat) -> IpAddr {
    if like.is_v4() {
        IpAddr::V4(v as u32)
    } else {
        IpAddr::V6(v as u128)
    }
}

/// First and last address of the block `net/prefix`; `None` for a prefix
/// longer than the family's width.
pub open spec fn cidr_bounds(net: IpAddr, prefix: u8) -> Option<(IpAddr, IpAddr)> {
    if prefix > net.bits() {
        None
    } else {
        let d = pow2(host_bits(net, prefix));
        let lo = (net.value() / d) * d;
        Some((with_value(net, lo), with_value(net, (lo + d - 1) as nat)))
    }
}

/// `2^k` as a machine integer.
fn pow2_u128(k: u8) -> (r: u128)
    requires
        k < 128,
    ensures
        r == pow2(k as nat),
{
    let mut d: u128 = 1;
    let mut i: u8 = 0;
    proof {
        lemma2_to64();
    }
    while i < k
        invariant
            i <= k < 128,
            d == pow2(i as nat),
        decreases k - i,
    {
        proof {
            lemma_pow2_adds(i as nat, 1);
            lemma2_to64();
            lemma_pow2_strictly_increases((i + 1) as nat, 128);
            lemma_pow2_128();
        }
        d = d * 2;
        i = i + 1;
    }
    d
}

pub(crate) fn same_family_exec(a: &IpAddr, b: &IpAddr) -> (r: bool)
    ensures
        r == same_family(*a, *b),
{
    a.is_ipv4() == b.is_ipv4()
}

pub(crate) fn addr_le_exec(a: &IpAddr, b: &IpAddr) -> (r: bool)
    ensures
        r == addr_le(*a, *b),
{
    if a.is_ipv4() != b.is_ipv4() {
        a.is_ipv4()
    } else {
        a.raw() <= b.raw()
    }
}

pub(crate) fn in_range_exec(a: &IpAddr, start: &IpAddr, end: &IpAddr) -> (r: bool)
    ensures
        r == in_range(*a, *start, *end),
{
    same_family_exec(a, start) && same_family_exec(a, end) && addr_le_exec(start, a)
        && addr_le_exec(a, end)
}

pub(crate) fn in_cidr_exec(a: &IpAddr, net: &IpAddr, prefix: u8) -> (r: bool)
    ensures
        r == in_cidr(*a, *net, prefix),
{
    if !same_family_exec(a, net) {
        return false;
    }
    let bits = net.width();
    if prefix > bits {
        return false;
    }
    let k = bits - prefix;
    if k == 128 {
        proof {
            lemma_pow2_128();
            lemma_value_bound(*a);
            lemma_value_bound(*net);
            lemma_basic_div(a.value() as int, pow2(128) as int);
            lemma_basic_div(net.value() as int, pow2(128) as int);
        }
        return true;
    }
    let d = pow2_u128(k);
    proof {
        lemma_pow2_pos(k as nat);
    }
    a.raw() / d == net.raw() / d
}

pub(crate) fn cidr_bounds_exec(net: &IpAddr, prefix: u8) -> (r: Option<(IpAddr, IpAddr)>)
    ensures
        r == cidr_bounds(*net, prefix),
{
    let bits = net.width();
    if prefix > bits {
        return None;
    }
    let k = bits - prefix;
    let n = net.raw();
    proof {
        lemma_value_bound(*net);
        lemma_pow2_128();
    }
    if k == 128 {
        proof {
            lemma_basic_div(n as int, pow2(128) as int);
            assert(!net.is_v4());
            assert(host_bits(*net, prefix) == 128);
            assert((n as int / pow2(128) as int) * pow2(128) as int == 0);
        }
        return Some((IpAddr::V6(0), IpAddr::V6(u128::MAX)));
    }
    let d = pow2_u128(k);
    proof {
        lemma_pow2_pos(k as nat);
        lemma_pow2_adds(prefix as nat, k as nat);
        // n < 2^prefix * d, so n / d < 2^prefix and (n / d + 1) * d <= 2^bits
        assert(prefix as nat + k as nat == net.bits());
        vstd::arithmetic::mul::lemma_mul_is_commutative(pow2(prefix as nat) as int, d as int);
        lemma_multiply_divide_lt(n as int, d as int, pow2(prefix as nat) as int);
        lemma_mul_inequality(n as int / d as int + 1, pow2(prefix as nat) as int, d as int);
        lemma_mul_is_distributive_add_other_way(d as int, n as int / d as int, 1);
        lemma_fundamental_div_mod(n as int, d as int);
    }
    let lo = n / d * d;
    let hi = lo + (d - 1);
    if net.is_ipv4() {
        Some((IpAddr::V4(lo as u32), IpAddr::V4(hi as u32)))
    } else {
        Some((IpAddr::V6(lo), IpAddr::V6(hi)))
    }
}

/// The value bounds of a block: `lo + d - 1` stays inside the family's
/// value space, so the bounds keep their numeric values.
pub(crate) proof fn lemma_cidr_bounds_values(net: IpAddr, prefix: u8)
    requires
        prefix <= net.bits(),
    ensures
        ({
            let d = pow2(host_bits(net, prefix));
            let lo = (net.value() / d) * d;
            &&& d > 0
            &&& lo <= net.value()
            &&& lo + d - 1 < pow2(net.bits())
            &&& cidr_bounds(net, prefix) matches Some((l, h)) && l.value() == lo && h.value() == lo + d - 1
                && same_family(l, net) && same_family(h, net)
        }),
{
    let k = host_bits(net, prefix);
    let d = pow2(k);
    let n = net.value();
    lemma_value_bound(net);
    lemma_pow2_128();
    lemma_pow2_pos(k);
    lemma_pow2_adds(prefix as nat, k);
    assert(prefix as nat + k == net.bits());
    vstd::arithmetic::mul::lemma_mul_is_commutative(pow2(prefix as nat) as int, d as int);
    lemma_multiply_divide_lt(n as int, d as int, pow2(prefix as nat) as int);
    lemma_mul_inequality(n as int / d as int + 1, pow2(prefix as nat) as int, d as int);
    lemma_mul_is_distributive_add_other_way(d as int, n as int / d as int, 1);
    lemma_fundamental_div_mod(n as int, d as int);
    lemma_remainder(n as int, d as int);
    vstd::arithmetic::mul::lemma_mul_is_commutative(d as int, n as int / d as int);
}

/// Nested blocks: an address of `a2/p2` lies in `a1/p1` when `p1 <= p2` and
/// `a2` lies in `a1/p1`.
pub(crate) proof fn lemma_cidr_nested(x: IpAddr, a1: IpAddr, p1: u8, a2: IpAddr, p2: u8)
    requires
        p1 <= p2,
        in_cidr(a2, a1, p1),
        in_cidr(x, a2, p2),
    ensures
        in_cidr(x, a1, p1),
{
    let k1 = host_bits(a1, p1);
    let k2 = host_bits(a2, p2);
    assert(k2 <= k1);
    let j = (k1 - k2) as nat;
    lemma_pow2_adds(k2, j);
    assert(k2 + j == k1);
    lemma_pow2_pos(k2);
    lemma_pow2_pos(j);
    lemma_div_denominator(x.value() as int, pow2(k2) as int, pow2(j) as int);
    lemma_div_denominator(a2.value() as int, pow2(k2) as int, pow2(j) as int);
}

/// Two addresses sharing the same leading bits: a block containing both
/// bounds of a range contains every address between them.
pub(crate) proof fn lemma_cidr_between(x: IpAddr, s: IpAddr, e: IpAddr, net: IpAddr, prefix: u8)
    requires
        in_cidr(s, net, prefix),
        in_cidr(e, net, prefix),
        in_range(x, s, e),
    ensures
        in_cidr(x, net, prefix),
{
    let d = pow2(host_bits(net, prefix));
    lemma_pow2_pos(host_bits(net, prefix));
    lemma_div_is_ordered(s.value() as int, x.value() as int, d as int);
    lemma_div_is_ordered(x.value() as int, e.value() as int, d as int);
}

/// An address of a block lies between the block's bounds.
pub(crate) proof fn lemma_cidr_bounds_contain(x: IpAddr, net: IpAddr, prefix: u8)
    requires
        in_cidr(x, net, prefix),
    ensures
        cidr_bounds(net, prefix) matches Some((lo, hi)) && in_range(x, lo, hi),
{
    lemma_cidr_bounds_values(net, prefix);
    let d = pow2(host_bits(net, prefix));
    lemma_pow2_pos(host_bits(net, prefix));
    lemma_fundamental_div_mod(x.value() as int, d as int);
    lemma_remainder(x.value() as int, d as int);
    vstd::arithmetic::mul::lemma_mul_is_commutative(d as int, x.value() as int / d as int);
}

/// A block whose prefix is the whole width holds a single address.
pub(crate) proof fn lemma_full_prefix_block(x: IpAddr, a: IpAddr, net: IpAddr, prefix: u8)
    requires
        prefix == net.bits(),
        in_cidr(a, net, prefix),
        in_cidr(x, net, prefix),
    ensures
        x == a,
{
    lemma2_to64();
    assert(host_bits(net, prefix) == 0);
    assert(x.value() == a.value());
    match (x, a) {
        (IpAddr::V4(p), IpAddr::V4(q)) => {
            assert(p == q);
        },
        (IpAddr::V6(p), IpAddr::V6(q)) => {
            assert(p == q);
        },
        _ => {},
    }
}

/// `addr_le` is transitive.
pub(crate) proof fn lemma_addr_le_trans(a: IpAddr, b: IpAddr, c: IpAddr)
    requires
        addr_le(a, b),
        addr_le(b, c),
    ensures
        addr_le(a, c),
{
}

} // verus!
