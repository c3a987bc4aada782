//! The messages between clients and the server, and the masks under which
//! addresses travel in them.
use crate::addr::SocketAddr;
use vstd::prelude::*;

verus! {

/// What IP addresses are combined with before they are sent, so that they do
/// not show in a packet as they are.
pub const IP_MASK: u32 = 0x44556677;

/// What port numbers are combined with before they are sent.
pub const PORT_MASK: u16 = 0x8899;

/// A control message as a client sends it.
#[derive(Debug)]
pub struct OutgoingControlMessage {
    /// The name of the client.
    pub na: String,
    /// The ports that the client opened, masked.
    pub ports: Vec<u16>,
    /// Set in the first message, to make the other client answer early.
    pub disc: bool,
}

/// A control message as a client receives it.
#[derive(Debug)]
pub struct IncomingControlMessage {
    /// The name chosen by the other client.
    pub na: String,
    /// The IP address of the other client, masked; filled in by the server.
    pub ip: u32,
    /// The port that the message came from, masked; filled in by the server.
    pub po: u16,
    /// The ports that the other client opened, masked.
    pub ports: Vec<u16>,
    /// Whether the other client asks for an early answer.
    pub disc: bool,
}

/// A control message as the server sees it. What else the message holds is
/// passed on as it is.
#[derive(Debug)]
pub struct ControlMessage {
    /// The name of the client.
    pub na: String,
    /// The IP address of the sender, masked.
    pub ip: Option<u32>,
    /// The port of the sender, masked.
    pub po: Option<u16>,
}

/// What the server writes into a control message: the masked IP address and
/// the masked port of its sender.
#[derive(Clone, Copy, Debug, PartialEq, Eq, Structural)]
pub struct Stamp {
    pub ip: u32,
    pub po: u16,
}

/// The masked form of each port.
pub open spec fn masked_ports(ports: Seq<u16>) -> Seq<u16> {
    Seq::new(ports.len(), |i: int| ports[i] ^ PORT_MASK)
}

/// The IPv4 address that is passed on for a sender: zero for an IPv6 sender.
pub open spec fn sender_ip(from: SocketAddr) -> u32 {
    match from {
        SocketAddr::V4 { ip, port: _ } => ip,
        SocketAddr::V6 { .. } => 0,
    }
}

/// Masks a list of ports.
pub fn mask_ports(ports: &Vec<u16>) -> (r: Vec<u16>)
    ensures
        r@ == masked_ports(ports@),
        r@.len() == ports@.len(),
        forall|i: int| 0 <= i < ports@.len() ==> #[trigger] r@[i] == ports@[i] ^ 0x8899u16,
{
    let mut r: Vec<u16> = Vec::new();
    for i in 0..ports.len()
        invariant
            r@ == masked_ports(ports@).take(i as int),
    {
        r.push(ports[i] ^ PORT_MASK);
    }
    r
}

/// What the server writes into a control message that came from `from`.
pub fn stamp(from: &SocketAddr) -> (r: Stamp)
    ensures
        r.ip == sender_ip(*from) ^ IP_MASK,
        r.po == from.spec_port() ^ PORT_MASK,
        *from matches SocketAddr::V4 { ip, port } ==> r.ip == ip ^ 0x44556677u32 && r.po == port
            ^ 0x8899u16,
        *from matches SocketAddr::V6 { ip: _, port, flowinfo: _, scope_id: _ } ==> r.ip == 0u32
            ^ 0x44556677u32 && r.po == port ^ 0x8899u16,
{
    let ip: u32 = match *from {
        SocketAddr::V4 { ip, port: _ } => ip,
        SocketAddr::V6 { .. } => 0,
    };
    Stamp { ip: ip ^ IP_MASK, po: from.port() ^ PORT_MASK }
}

impl ControlMessage {
    /// The message with the address that it came from, whatever address was in
    /// it before.
    pub fn stamped(self, from: &SocketAddr) -> (r: ControlMessage)
        ensures
            r.na == self.na,
            r.ip == Some(sender_ip(*from) ^ IP_MASK),
            r.po == Some(from.spec_port() ^ PORT_MASK),
            *from matches SocketAddr::V4 { ip, port } ==> r.ip == Some(ip ^ 0x44556677u32) && r.po
                == Some(port ^ 0x8899u16),
            *from matches SocketAddr::V6 { ip: _, port, flowinfo: _, scope_id: _ } ==> r.ip == Some(
                0u32 ^ 0x44556677u32,
            ) && r.po == Some(port ^ 0x8899u16),
    {
        let seen = stamp(from);
        ControlMessage { na: self.na, ip: Some(seen.ip), po: Some(seen.po) }
    }
}

/// A message that came from an IPv4 address is stamped with that address, and
/// the address is found again from the stamp: taking the masks off gives the
/// very IP address and port that the message came from.
pub proof fn law_stamp_tells_an_ipv4_sender(ip: u32, port: u16, s: Stamp)
    requires
        s.ip == sender_ip(SocketAddr::V4 { ip, port }) ^ IP_MASK,
        s.po == (SocketAddr::V4 { ip, port }).spec_port() ^ PORT_MASK,
    ensures
        s.ip == ip ^ 0x44556677u32,
        s.po == port ^ 0x8899u16,
        s.ip ^ 0x44556677u32 == ip,
        s.po ^ 0x8899u16 == port,
{
    assert((ip ^ 0x44556677u32) ^ 0x44556677u32 == ip) by (bit_vector);
    assert((port ^ 0x8899u16) ^ 0x8899u16 == port) by (bit_vector);
}

/// A message that came from an IPv6 address is stamped with the masked zero
/// address, and with the port that it came from.
pub proof fn law_stamp_tells_the_port_of_an_ipv6_sender(
    ip: u128,
    port: u16,
    flowinfo: u32,
    scope_id: u32,
    s: Stamp,
)
    requires
        s.ip == sender_ip(SocketAddr::V6 { ip, port, flowinfo, scope_id }) ^ IP_MASK,
        s.po == (SocketAddr::V6 { ip, port, flowinfo, scope_id }).spec_port() ^ PORT_MASK,
    ensures
        s.ip ^ 0x44556677u32 == 0,
        s.po ^ 0x8899u16 == port,
{
    assert((0u32 ^ 0x44556677u32) ^ 0x44556677u32 == 0) by (bit_vector);
    assert((port ^ 0x8899u16) ^ 0x8899u16 == port) by (bit_vector);
}

/// Messages from two IPv4 addresses are stamped alike only if the addresses
/// are the same.
pub proof fn law_stamps_tell_senders_apart(ip: u32, port: u16, other_ip: u32, other_port: u16)
    ensures
        sender_ip(SocketAddr::V4 { ip, port }) ^ IP_MASK == sender_ip(
            SocketAddr::V4 { ip: other_ip, port: other_port },
        ) ^ IP_MASK <==> ip == other_ip,
{
    law_ip_mask_undoes_itself(ip);
    law_ip_mask_undoes_itself(other_ip);
}

/// Masking an IP address twice gives it back.
pub proof fn law_ip_mask_undoes_itself(ip: u32)
    ensures
        (ip ^ IP_MASK) ^ IP_MASK == ip,
{
    assert((ip ^ 0x44556677u32) ^ 0x44556677u32 == ip) by (bit_vector);
}

/// Masking a port twice gives it back.
pub proof fn law_port_mask_undoes_itself(port: u16)
    ensures
        (port ^ PORT_MASK) ^ PORT_MASK == port,
{
    assert((port ^ 0x8899u16) ^ 0x8899u16 == port) by (bit_vector);
}

/// Each port of a list is masked by itself, in its place.
pub proof fn law_ports_are_masked_one_by_one(ports: Seq<u16>, i: int)
    requires
        0 <= i < ports.len(),
    ensures
        masked_ports(ports).len() == ports.len(),
        masked_ports(ports)[i] == ports[i] ^ 0x8899u16,
        masked_ports(ports)[i] ^ 0x8899u16 == ports[i],
{
    law_port_mask_undoes_itself(ports[i]);
}

/// Masking a list of ports twice gives it back.
pub proof fn law_masked_ports_undo_themselves(ports: Seq<u16>)
    ensures
        masked_ports(masked_ports(ports)) == ports,
{
    assert forall|i: int| 0 <= i < ports.len() implies masked_ports(masked_ports(ports))[i]
        == ports[i] by {
        law_port_mask_undoes_itself(ports[i]);
    }
    assert(masked_ports(masked_ports(ports)) =~= ports);
}

} // verus!
