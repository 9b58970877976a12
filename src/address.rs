//! Addresses and address families.
use vstd::prelude::*;

verus! {

/// The address family that a task asks an interface for.
#[derive(Debug, Copy, Clone, PartialEq, Eq, Structural, Hash)]
pub enum IpType {
    V4,
    V6,
}

/// An IP address as its numeric value: IPv4 as a big-endian `u32`, IPv6 as a
/// big-endian `u128`.
#[derive(Debug, Copy, Clone, PartialEq, Eq, Structural, Hash)]
pub enum Addr {
    V4(u32),
    V6(u128),
}

/// Octet `shift / 8` from the right of an IPv4 address.
pub open spec fn octet(a: u32, shift: u32) -> u32 {
    (a >> shift) & 0xffu32
}

/// The 16-bit group of an IPv6 address that starts `shift` bits from the right.
pub open spec fn segment(a: u128, shift: u128) -> u128 {
    (a >> shift) & 0xffffu128
}

/// IPv4 blocks that are not globally reachable (IANA special-purpose registry).
pub open spec fn v4_is_special(a: u32) -> bool {
    let o0 = octet(a, 24);
    let o1 = octet(a, 16);
    let o2 = octet(a, 8);
    let o3 = octet(a, 0);
    // this network, 0.0.0.0/8
    ||| o0 == 0
    // private, 10.0.0.0/8, 172.16.0.0/12, 192.168.0.0/16
    ||| o0 == 10
    ||| (o0 == 172 && (o1 & 0xf0u32) == 16)
    ||| (o0 == 192 && o1 == 168)
    // shared address space, 100.64.0.0/10
    ||| (o0 == 100 && (o1 & 0xc0u32) == 0x40)
    // loopback, 127.0.0.0/8
    ||| o0 == 127
    // link local, 169.254.0.0/16
    ||| (o0 == 169 && o1 == 254)
    // protocol assignments, 192.0.0.0/24, except .9 and .10
    ||| (o0 == 192 && o1 == 0 && o2 == 0 && o3 != 9 && o3 != 10)
    // documentation, 192.0.2.0/24, 198.51.100.0/24, 203.0.113.0/24
    ||| (o0 == 192 && o1 == 0 && o2 == 2)
    ||| (o0 == 198 && o1 == 51 && o2 == 100)
    ||| (o0 == 203 && o1 == 0 && o2 == 113)
    // benchmarking, 198.18.0.0/15
    ||| (o0 == 198 && (o1 & 0xfeu32) == 18)
    // reserved, 240.0.0.0/4, and the broadcast address
    ||| (o0 & 0xf0u32) == 0xf0
}

/// IPv6 blocks that are not globally reachable (IANA special-purpose registry).
pub open spec fn v6_is_special(a: u128) -> bool {
    let s0 = segment(a, 112);
    let s1 = segment(a, 96);
    let s2 = segment(a, 80);
    let s3 = segment(a, 64);
    let s4 = segment(a, 48);
    let s5 = segment(a, 32);
    // unspecified and loopback
    ||| a == 0
    ||| a == 1
    // IPv4-mapped, ::ffff:0:0/96
    ||| (s0 == 0 && s1 == 0 && s2 == 0 && s3 == 0 && s4 == 0 && s5 == 0xffff)
    // IPv4-IPv6 translation, 64:ff9b:1::/48
    ||| (s0 == 0x64 && s1 == 0xff9b && s2 == 1)
    // discard only, 100::/64
    ||| (s0 == 0x100 && s1 == 0 && s2 == 0 && s3 == 0)
    // IETF protocol assignments, 2001::/23, less its global sub-blocks
    ||| (s0 == 0x2001 && s1 < 0x200 && !(
        a == 0x2001_0001_0000_0000_0000_0000_0000_0001u128
        || a == 0x2001_0001_0000_0000_0000_0000_0000_0002u128
        || s1 == 3
        || (s1 == 4 && s2 == 0x112)
        || (0x20 <= s1 && s1 <= 0x3f)))
    // 6to4, 2002::/16
    ||| s0 == 0x2002
    // documentation, 2001:db8::/32
    ||| (s0 == 0x2001 && s1 == 0xdb8)
    // unique local, fc00::/7
    ||| (s0 & 0xfe00u128) == 0xfc00
    // link-local unicast, fe80::/10
    ||| (s0 & 0xffc0u128) == 0xfe80
}

/// Whether an address is globally reachable.
pub open spec fn is_global_spec(a: Addr) -> bool {
    match a {
        Addr::V4(v) => !v4_is_special(v),
        Addr::V6(v) => !v6_is_special(v),
    }
}

/// Whether an address belongs to a family.
pub open spec fn in_family(a: Addr, family: IpType) -> bool {
    match family {
        IpType::V4 => a is V4,
        IpType::V6 => a is V6,
    }
}

impl Addr {
    /// Whether this is an IPv4 address.
    pub fn is_ipv4(&self) -> (r: bool)
        ensures
            r == (*self is V4),
    {
        match self {
            Addr::V4(_) => true,
            Addr::V6(_) => false,
        }
    }

    /// Whether this is an IPv6 address.
    pub fn is_ipv6(&self) -> (r: bool)
        ensures
            r == (*self is V6),
    {
        match self {
            Addr::V4(_) => false,
            Addr::V6(_) => true,
        }
    }

    /// Whether the address belongs to `family`.
    pub fn in_family(&self, family: IpType) -> (r: bool)
        ensures
            r == in_family(*self, family),
    {
        match family {
            IpType::V4 => self.is_ipv4(),
            IpType::V6 => self.is_ipv6(),
        }
    }
}

impl IpType {
    /// The name under which logs show the family.
    pub fn name(&self) -> (r: &'static str)
        ensures
            *self is V4 ==> r@ == "IPV4"@,
            *self is V6 ==> r@ == "IPV6"@,
    {
        match self {
            IpType::V4 => "IPV4",
            IpType::V6 => "IPV6",
        }
    }
}

fn v4_is_special_exec(a: u32) -> (r: bool)
    ensures
        r == v4_is_special(a),
{
    let o0 = (a >> 24u32) & 0xffu32;
    let o1 = (a >> 16u32) & 0xffu32;
    let o2 = (a >> 8u32) & 0xffu32;
    let o3 = (a >> 0u32) & 0xffu32;
    o0 == 0
        || o0 == 10
        || (o0 == 172 && (o1 & 0xf0u32) == 16)
        || (o0 == 192 && o1 == 168)
        || (o0 == 100 && (o1 & 0xc0u32) == 0x40)
        || o0 == 127
        || (o0 == 169 && o1 == 254)
        || (o0 == 192 && o1 == 0 && o2 == 0 && o3 != 9 && o3 != 10)
        || (o0 == 192 && o1 == 0 && o2 == 2)
        || (o0 == 198 && o1 == 51 && o2 == 100)
        || (o0 == 203 && o1 == 0 && o2 == 113)
        || (o0 == 198 && (o1 & 0xfeu32) == 18)
        || (o0 & 0xf0u32) == 0xf0
}

fn v6_is_special_exec(a: u128) -> (r: bool)
    ensures
        r == v6_is_special(a),
{
    let s0 = (a >> 112u128) & 0xffffu128;
    let s1 = (a >> 96u128) & 0xffffu128;
    let s2 = (a >> 80u128) & 0xffffu128;
    let s3 = (a >> 64u128) & 0xffffu128;
    let s4 = (a >> 48u128) & 0xffffu128;
    let s5 = (a >> 32u128) & 0xffffu128;
    a == 0
        || a == 1
        || (s0 == 0 && s1 == 0 && s2 == 0 && s3 == 0 && s4 == 0 && s5 == 0xffff)
        || (s0 == 0x64 && s1 == 0xff9b && s2 == 1)
        || (s0 == 0x100 && s1 == 0 && s2 == 0 && s3 == 0)
        || (s0 == 0x2001 && s1 < 0x200 && !(
            a == 0x2001_0001_0000_0000_0000_0000_0000_0001u128
            || a == 0x2001_0001_0000_0000_0000_0000_0000_0002u128
            || s1 == 3
            || (s1 == 4 && s2 == 0x112)
            || (0x20 <= s1 && s1 <= 0x3f)))
        || s0 == 0x2002
        || (s0 == 0x2001 && s1 == 0xdb8)
        || (s0 & 0xfe00u128) == 0xfc00
        || (s0 & 0xffc0u128) == 0xfe80
}

/// Whether `addr` is globally reachable: outside every special-purpose block.
pub fn is_global(addr: &Addr) -> (r: bool)
    ensures
        r == is_global_spec(*addr),
{
    match addr {
        Addr::V4(v) => !v4_is_special_exec(*v),
        Addr::V6(v) => !v6_is_special_exec(*v),
    }
}

} // verus!
