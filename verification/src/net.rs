//! Socket addresses as plain values.
//!
//! Parsing and printing addresses is left to the I/O layer; the library only
//! decides which address to use.

use vstd::prelude::*;

use crate::text::{decimal, push_decimal};

verus! {

/// An IP address, as the big-endian number of its 4 or 16 bytes.
#[derive(PartialEq, Eq, Structural, Clone, Copy, Debug)]
pub enum IpAddress {
    V4(u32),
    V6(u128),
}

/// An IP address and a port.
#[derive(PartialEq, Eq, Structural, Clone, Copy, Debug)]
pub struct SockAddr {
    pub ip: IpAddress,
    pub port: u16,
}

impl IpAddress {
    /// Whether this is an IPv4 address.
    pub fn is_ipv4(&self) -> (b: bool)
        ensures
            b == (*self is V4),
    {
        match self {
            IpAddress::V4(_) => true,
            IpAddress::V6(_) => false,
        }
    }

    /// Whether this is an IPv6 unicast link-local address (`fe80::/10`): its
    /// first ten bits are those of `fe80`.
    pub open spec fn spec_is_link_local_v6(self) -> bool {
        match self {
            IpAddress::V6(bits) => (bits as int) / 0x40_0000_0000_0000_0000_0000_0000_0000 == 0x3fa,
            IpAddress::V4(_) => false,
        }
    }

    /// Whether this is an IPv6 unicast link-local address (`fe80::/10`).
    pub fn is_link_local_v6(&self) -> (b: bool)
        ensures
            b == self.spec_is_link_local_v6(),
    {
        match self {
            IpAddress::V6(bits) => *bits / 0x40_0000_0000_0000_0000_0000_0000_0000 == 0x3fa,
            IpAddress::V4(_) => false,
        }
    }
}

/// Where a peer can be reached back: the IP it connected from, on the
/// listening port it advertised, or on the connection's port when it
/// advertised none (0).
pub open spec fn spec_listen_addr(conn: SockAddr, advertised_port: u16) -> SockAddr {
    SockAddr { ip: conn.ip, port: if advertised_port > 0 { advertised_port } else { conn.port } }
}

/// Where a peer can be reached back: the IP it connected from, on the
/// listening port it advertised (its connection's source port is ephemeral).
pub fn listen_addr(conn: SockAddr, advertised_port: u16) -> (a: SockAddr)
    ensures
        a == spec_listen_addr(conn, advertised_port),
{
    let port = if advertised_port > 0 {
        advertised_port
    } else {
        conn.port
    };
    SockAddr { ip: conn.ip, port }
}

/// The first address satisfying `p`, if any.
pub open spec fn find_first(addrs: Seq<IpAddress>, p: spec_fn(IpAddress) -> bool) -> Option<IpAddress>
    decreases addrs.len(),
{
    if addrs.len() == 0 {
        None
    } else if p(addrs[0]) {
        Some(addrs[0])
    } else {
        find_first(addrs.drop_first(), p)
    }
}

/// IPv4 addresses.
pub open spec fn ipv4_pred() -> spec_fn(IpAddress) -> bool {
    |a: IpAddress| a is V4
}

/// IPv6 addresses that are not link-local.
pub open spec fn routable_v6_pred() -> spec_fn(IpAddress) -> bool {
    |a: IpAddress| a is V6 && !a.spec_is_link_local_v6()
}

/// Prefer IPv4, then any non-link-local IPv6, then anything.
pub open spec fn spec_best_ip(addrs: Seq<IpAddress>) -> Option<IpAddress> {
    match find_first(addrs, ipv4_pred()) {
        Some(a) => Some(a),
        None => match find_first(addrs, routable_v6_pred()) {
            Some(a) => Some(a),
            None => if addrs.len() > 0 {
                Some(addrs[0])
            } else {
                None
            },
        },
    }
}

proof fn lemma_find_first_step(addrs: Seq<IpAddress>, p: spec_fn(IpAddress) -> bool, i: int)
    requires
        0 <= i < addrs.len(),
        !p(addrs[i]),
    ensures
        find_first(addrs.subrange(i, addrs.len() as int), p) == find_first(
            addrs.subrange(i + 1, addrs.len() as int),
            p,
        ),
{
    let s = addrs.subrange(i, addrs.len() as int);
    assert(s[0] == addrs[i]);
    assert(s.drop_first() =~= addrs.subrange(i + 1, addrs.len() as int));
}

proof fn lemma_find_first_hit(addrs: Seq<IpAddress>, p: spec_fn(IpAddress) -> bool, i: int)
    requires
        0 <= i < addrs.len(),
        p(addrs[i]),
    ensures
        find_first(addrs.subrange(i, addrs.len() as int), p) == Some(addrs[i]),
{
    let s = addrs.subrange(i, addrs.len() as int);
    assert(s[0] == addrs[i]);
}

/// The first IPv4 address, then the first routable IPv6 one.
fn find_v4(addrs: &Vec<IpAddress>) -> (r: Option<IpAddress>)
    ensures
        r == find_first(addrs@, ipv4_pred()),
{
    let n = addrs.len();
    let mut i: usize = 0;
    assert(addrs@.subrange(0, n as int) =~= addrs@);
    while i < n
        invariant
            n == addrs@.len(),
            i <= n,
            find_first(addrs@, ipv4_pred()) == find_first(addrs@.subrange(i as int, n as int), ipv4_pred()),
        decreases n - i,
    {
        if addrs[i].is_ipv4() {
            proof { lemma_find_first_hit(addrs@, ipv4_pred(), i as int); }
            return Some(addrs[i]);
        }
        proof { lemma_find_first_step(addrs@, ipv4_pred(), i as int); }
        i = i + 1;
    }
    assert(addrs@.subrange(n as int, n as int).len() == 0);
    None
}

fn find_routable_v6(addrs: &Vec<IpAddress>) -> (r: Option<IpAddress>)
    ensures
        r == find_first(addrs@, routable_v6_pred()),
{
    let n = addrs.len();
    let mut i: usize = 0;
    assert(addrs@.subrange(0, n as int) =~= addrs@);
    while i < n
        invariant
            n == addrs@.len(),
            i <= n,
            find_first(addrs@, routable_v6_pred()) == find_first(addrs@.subrange(i as int, n as int), routable_v6_pred()),
        decreases n - i,
    {
        if !addrs[i].is_ipv4() && !addrs[i].is_link_local_v6() {
            proof { lemma_find_first_hit(addrs@, routable_v6_pred(), i as int); }
            return Some(addrs[i]);
        }
        proof { lemma_find_first_step(addrs@, routable_v6_pred(), i as int); }
        i = i + 1;
    }
    assert(addrs@.subrange(n as int, n as int).len() == 0);
    None
}

/// The address to reach a device announcing `addrs` on `port`: IPv4 first,
/// then any non-link-local IPv6, then anything.
pub fn best_addr(addrs: &Vec<IpAddress>, port: u16) -> (a: Option<SockAddr>)
    ensures
        a == (match spec_best_ip(addrs@) {
            Some(ip) => Some(SockAddr { ip, port }),
            None => None,
        }),
{
    let ip = match find_v4(addrs) {
        Some(a) => Some(a),
        None => match find_routable_v6(addrs) {
            Some(a) => Some(a),
            None => if addrs.len() > 0 {
                Some(addrs[0])
            } else {
                None
            },
        },
    };
    match ip {
        Some(ip) => Some(SockAddr { ip, port }),
        None => None,
    }
}

/// The dotted-quad text of an IPv4 address (big-endian number).
pub open spec fn dotted(ip: u32) -> Seq<char> {
    decimal((ip / 0x100_0000) as nat) + seq!['.'] + decimal(((ip / 0x1_0000) % 256) as nat) + seq!['.']
        + decimal(((ip / 0x100) % 256) as nat) + seq!['.'] + decimal((ip % 256) as nat)
}

/// Appends the dotted-quad text of an IPv4 address.
pub fn push_dotted(s: &mut String, ip: u32)
    ensures
        final(s)@ == old(s)@ + dotted(ip),
{
    push_decimal(s, (ip / 0x100_0000) as u64);
    s.push('.');
    push_decimal(s, ((ip / 0x1_0000) % 256) as u64);
    s.push('.');
    push_decimal(s, ((ip / 0x100) % 256) as u64);
    s.push('.');
    push_decimal(s, (ip % 256) as u64);
    assert(final(s)@ =~= old(s)@ + dotted(ip));
}

} // verus!
