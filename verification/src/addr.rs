//! Socket addresses as plain integers.
use vstd::prelude::*;

verus! {

/// An IPv4 or IPv6 socket address. Addresses are in host byte order, so that
/// the leftmost octet of an IPv4 address is its most significant byte.
#[allow(inconsistent_fields)]
#[derive(Clone, Copy, Debug, PartialEq, Eq, Structural)]
pub enum SocketAddr {
    V4 { ip: u32, port: u16 },
    V6 { ip: u128, port: u16, flowinfo: u32, scope_id: u32 },
}

/// A socket address as a tuple of integers: whether it is IPv6, then its IP
/// address, port, flow information and scope.
pub type PeerKey = (bool, u128, u16, u32, u32);

impl SocketAddr {
    /// The tuple that stands for the address; the two parts that only IPv6
    /// has are zero for IPv4.
    pub open spec fn spec_key(self) -> PeerKey {
        match self {
            SocketAddr::V4 { ip, port } => (false, ip as u128, port, 0, 0),
            SocketAddr::V6 { ip, port, flowinfo, scope_id } => (true, ip, port, flowinfo, scope_id),
        }
    }

    /// The tuple that stands for the address.
    pub fn key(&self) -> (r: PeerKey)
        ensures
            r == self.spec_key(),
            match *self {
                SocketAddr::V4 { ip, port } => !r.0 && r.1 == ip && r.2 == port && r.3 == 0 && r.4
                    == 0,
                SocketAddr::V6 { ip, port, flowinfo, scope_id } => r.0 && r.1 == ip && r.2 == port
                    && r.3 == flowinfo && r.4 == scope_id,
            },
    {
        match *self {
            SocketAddr::V4 { ip, port } => (false, ip as u128, port, 0, 0),
            SocketAddr::V6 { ip, port, flowinfo, scope_id } => (true, ip, port, flowinfo, scope_id),
        }
    }

    /// The port number of the address.
    pub open spec fn spec_port(self) -> u16 {
        match self {
            SocketAddr::V4 { ip: _, port } => port,
            SocketAddr::V6 { ip: _, port, flowinfo: _, scope_id: _ } => port,
        }
    }

    /// The port number of the address.
    pub fn port(&self) -> (r: u16)
        ensures
            r == self.spec_port(),
            *self matches SocketAddr::V4 { ip: _, port } ==> r == port,
            *self matches SocketAddr::V6 { ip: _, port, flowinfo: _, scope_id: _ } ==> r == port,
    {
        match *self {
            SocketAddr::V4 { ip: _, port } => port,
            SocketAddr::V6 { ip: _, port, flowinfo: _, scope_id: _ } => port,
        }
    }
}

/// Whether a tuple stands for some address.
pub open spec fn is_peer_key(k: PeerKey) -> bool {
    !k.0 ==> k.1 <= u32::MAX && k.3 == 0 && k.4 == 0
}

/// The address that a tuple stands for.
pub open spec fn spec_addr_of_key(k: PeerKey) -> SocketAddr {
    if k.0 {
        SocketAddr::V6 { ip: k.1, port: k.2, flowinfo: k.3, scope_id: k.4 }
    } else {
        SocketAddr::V4 { ip: k.1 as u32, port: k.2 }
    }
}

/// The address that a tuple stands for. Of a tuple that stands for none, the
/// parts that IPv4 has no room for are left out.
pub fn addr_of_key(k: PeerKey) -> (r: SocketAddr)
    ensures
        r == spec_addr_of_key(k),
        k.0 ==> r == (SocketAddr::V6 { ip: k.1, port: k.2, flowinfo: k.3, scope_id: k.4 }),
        !k.0 && k.1 <= u32::MAX ==> r == (SocketAddr::V4 { ip: k.1 as u32, port: k.2 }),
{
    let (v6, ip, port, flowinfo, scope_id) = k;
    if v6 {
        SocketAddr::V6 { ip, port, flowinfo, scope_id }
    } else {
        SocketAddr::V4 { ip: #[verifier::truncate] (ip as u32), port }
    }
}

/// The port of an address is the one that it was made with.
pub proof fn law_port_is_the_given_one(ip4: u32, ip6: u128, port: u16, flowinfo: u32, scope_id: u32)
    ensures
        (SocketAddr::V4 { ip: ip4, port }).spec_port() == port,
        (SocketAddr::V6 { ip: ip6, port, flowinfo, scope_id }).spec_port() == port,
{
}

/// The tuple that stands for an address is made of its parts, and tells the
/// two kinds of address apart.
pub proof fn law_key_is_made_of_the_parts(
    ip4: u32,
    ip6: u128,
    port: u16,
    flowinfo: u32,
    scope_id: u32,
)
    ensures
        (SocketAddr::V4 { ip: ip4, port }).spec_key() == (false, ip4 as u128, port, 0u32, 0u32),
        (SocketAddr::V6 { ip: ip6, port, flowinfo, scope_id }).spec_key() == (
            true,
            ip6,
            port,
            flowinfo,
            scope_id,
        ),
{
}

/// Two addresses have one tuple only if they are the same.
pub proof fn law_keys_tell_addresses_apart(a: SocketAddr, b: SocketAddr)
    ensures
        a.spec_key() == b.spec_key() <==> a == b,
{
    law_key_determines_address(a);
    law_key_determines_address(b);
}

/// An address is found again from the tuple that stands for it, so two
/// addresses with one tuple are one address.
pub proof fn law_key_determines_address(a: SocketAddr)
    ensures
        is_peer_key(a.spec_key()),
        spec_addr_of_key(a.spec_key()) == a,
{
}

/// A tuple that stands for an address is the tuple of that address.
pub proof fn law_address_determines_key(k: PeerKey)
    requires
        is_peer_key(k),
    ensures
        spec_addr_of_key(k).spec_key() == k,
{
}

} // verus!
