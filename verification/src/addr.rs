//! Socket addresses of the devices that data is sent to, and their order.

use vstd::prelude::*;

verus! {

/// A socket address, IPv4 or IPv6, with every field as a plain integer.
///
/// An IPv4 address is held as the big-endian number of its four octets, an
/// IPv6 address as that of its sixteen octets, so that the numeric order of
/// the fields is the order of the octets.
#[derive(Clone, Copy, Debug, PartialEq, Eq, Structural)]
pub enum TargetAddr {
    V4 { ip: u32, port: u16 },
    V6 { ip: u128, port: u16, flowinfo: u32, scope_id: u32 },
}

/// Lexicographic order on addresses: every IPv4 address before every IPv6
/// address, then by the fields in the order in which they are declared.
pub open spec fn addr_lt(a: TargetAddr, b: TargetAddr) -> bool {
    match (a, b) {
        (TargetAddr::V4 { ip: i1, port: p1 }, TargetAddr::V4 { ip: i2, port: p2 }) => i1 < i2 || (
        i1 == i2 && p1 < p2),
        (TargetAddr::V4 { .. }, TargetAddr::V6 { .. }) => true,
        (TargetAddr::V6 { .. }, TargetAddr::V4 { .. }) => false,
        (
            TargetAddr::V6 { ip: i1, port: p1, flowinfo: f1, scope_id: s1 },
            TargetAddr::V6 { ip: i2, port: p2, flowinfo: f2, scope_id: s2 },
        ) => i1 < i2 || (i1 == i2 && (p1 < p2 || (p1 == p2 && (f1 < f2 || (f1 == f2 && s1 < s2))))),
    }
}

/// The port of an address.
pub open spec fn spec_port(a: TargetAddr) -> u16 {
    match a {
        TargetAddr::V4 { port, .. } => port,
        TargetAddr::V6 { port, .. } => port,
    }
}

/// The address with its port replaced and every other field kept.
pub open spec fn spec_with_port(a: TargetAddr, port: u16) -> TargetAddr {
    match a {
        TargetAddr::V4 { ip, .. } => TargetAddr::V4 { ip, port },
        TargetAddr::V6 { ip, flowinfo, scope_id, .. } => TargetAddr::V6 {
            ip,
            port,
            flowinfo,
            scope_id,
        },
    }
}

impl TargetAddr {
    /// The port of the address.
    pub fn port(&self) -> (r: u16)
        ensures
            r == spec_port(*self),
    {
        match self {
            TargetAddr::V4 { port, .. } => *port,
            TargetAddr::V6 { port, .. } => *port,
        }
    }

    /// Replaces the port, keeping the rest of the address.
    pub fn set_port(&mut self, port: u16)
        ensures
            *final(self) == spec_with_port(*old(self), port),
            key_of(*final(self)).0 == key_of(*old(self)).0,
            key_of(*final(self)).1 == key_of(*old(self)).1,
            key_of(*final(self)).2 == port,
            key_of(*final(self)).3 == key_of(*old(self)).3,
            key_of(*final(self)).4 == key_of(*old(self)).4,
    {
        match self {
            TargetAddr::V4 { port: p, .. } => {
                *p = port;
            },
            TargetAddr::V6 { port: p, .. } => {
                *p = port;
            },
        }
    }

    /// Whether `self` comes strictly before `other`.
    pub fn less_than(&self, other: &TargetAddr) -> (r: bool)
        ensures
            r == addr_lt(*self, *other),
    {
        match (self, other) {
            (TargetAddr::V4 { ip: i1, port: p1 }, TargetAddr::V4 { ip: i2, port: p2 }) => *i1 < *i2
                || (*i1 == *i2 && *p1 < *p2),
            (TargetAddr::V4 { .. }, TargetAddr::V6 { .. }) => true,
            (TargetAddr::V6 { .. }, TargetAddr::V4 { .. }) => false,
            (
                TargetAddr::V6 { ip: i1, port: p1, flowinfo: f1, scope_id: s1 },
                TargetAddr::V6 { ip: i2, port: p2, flowinfo: f2, scope_id: s2 },
            ) => *i1 < *i2 || (*i1 == *i2 && (*p1 < *p2 || (*p1 == *p2 && (*f1 < *f2 || (*f1
                == *f2 && *s1 < *s2))))),
        }
    }
}

/// The order on addresses is a strict total order: no address comes before
/// itself, it is transitive, and of two different addresses one comes first.
pub proof fn lemma_addr_order(a: TargetAddr, b: TargetAddr, c: TargetAddr)
    ensures
        !addr_lt(a, a),
        addr_lt(a, b) && addr_lt(b, c) ==> addr_lt(a, c),
        a != b ==> addr_lt(a, b) || addr_lt(b, a),
        !(addr_lt(a, b) && addr_lt(b, a)),
{
}

/// Setting a port and reading it back gives that port; setting the port an
/// address already has leaves it unchanged.
pub proof fn lemma_port_roundtrip(a: TargetAddr, port: u16)
    ensures
        spec_port(spec_with_port(a, port)) == port,
        spec_with_port(a, spec_port(a)) == a,
        spec_with_port(spec_with_port(a, port), spec_port(a)) == a,
{
}


/// An address as a tuple of integers whose lexicographic order is the order
/// of addresses: a tag (0 for IPv4, 1 for IPv6), the IP, the port, the flow
/// information and the scope id (zero for IPv4).
pub type AddrKey = (u8, u128, u16, u32, u32);

/// Lexicographic order on keys.
pub open spec fn key_lt(a: AddrKey, b: AddrKey) -> bool {
    a.0 < b.0 || (a.0 == b.0 && (a.1 < b.1 || (a.1 == b.1 && (a.2 < b.2 || (a.2 == b.2 && (a.3
        < b.3 || (a.3 == b.3 && a.4 < b.4)))))))
}

/// The key of an address.
pub open spec fn key_of(a: TargetAddr) -> AddrKey {
    match a {
        TargetAddr::V4 { ip, port } => (0u8, ip as u128, port, 0u32, 0u32),
        TargetAddr::V6 { ip, port, flowinfo, scope_id } => (1u8, ip, port, flowinfo, scope_id),
    }
}

/// Whether a key is the key of some address.
pub open spec fn valid_key(k: AddrKey) -> bool {
    (k.0 == 0 && k.1 <= u32::MAX && k.3 == 0 && k.4 == 0) || k.0 == 1
}

/// The address of a valid key.
pub open spec fn addr_of(k: AddrKey) -> TargetAddr {
    if k.0 == 0 {
        TargetAddr::V4 { ip: k.1 as u32, port: k.2 }
    } else {
        TargetAddr::V6 { ip: k.1, port: k.2, flowinfo: k.3, scope_id: k.4 }
    }
}

/// Replacing the port keeps the kind of address, its IP and, for IPv6, its
/// flow information and scope id; only the port changes.
pub proof fn lemma_with_port_keeps_address(a: TargetAddr, port: u16)
    ensures
        key_of(spec_with_port(a, port)).0 == key_of(a).0,
        key_of(spec_with_port(a, port)).1 == key_of(a).1,
        key_of(spec_with_port(a, port)).2 == port,
        key_of(spec_with_port(a, port)).3 == key_of(a).3,
        key_of(spec_with_port(a, port)).4 == key_of(a).4,
        a is V4 ==> (spec_with_port(a, port) == (TargetAddr::V4 { ip: a->V4_ip, port })),
{
}

/// Keys and addresses correspond one to one.
pub proof fn lemma_key_codec(a: TargetAddr, k: AddrKey)
    ensures
        valid_key(key_of(a)),
        addr_of(key_of(a)) == a,
        valid_key(k) ==> key_of(addr_of(k)) == k,
{
}

/// The order of keys is the order of their addresses.
pub proof fn lemma_key_order(a: TargetAddr, b: TargetAddr)
    ensures
        addr_lt(a, b) <==> key_lt(key_of(a), key_of(b)),
{
}

impl TargetAddr {
    /// The key of the address.
    pub fn key(&self) -> (r: AddrKey)
        ensures
            r == key_of(*self),
    {
        match self {
            TargetAddr::V4 { ip, port } => (0u8, *ip as u128, *port, 0u32, 0u32),
            TargetAddr::V6 { ip, port, flowinfo, scope_id } => (1u8, *ip, *port, *flowinfo, *scope_id),
        }
    }

    /// The address of a valid key.
    pub fn from_key(k: AddrKey) -> (r: TargetAddr)
        requires
            valid_key(k),
        ensures
            r == addr_of(k),
    {
        if k.0 == 0 {
            TargetAddr::V4 { ip: k.1 as u32, port: k.2 }
        } else {
            TargetAddr::V6 { ip: k.1, port: k.2, flowinfo: k.3, scope_id: k.4 }
        }
    }
}

} // verus!
