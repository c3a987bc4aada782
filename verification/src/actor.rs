//! The relay: keeps track of the ports through which the peer can be reached,
//! and says where packets go.
//!
//! Points in time are nanoseconds since some fixed point in the past.
use crate::addr::SocketAddr;
use crate::options::ClientSettings;
use crate::random::{index_drawn, lemma_index_drawn, random_index};
use crate::wire::{
    law_ip_mask_undoes_itself, law_port_mask_undoes_itself, masked_ports, sender_ip,
    IncomingControlMessage, IP_MASK, PORT_MASK,
};
use std::collections::VecDeque;
use vstd::prelude::*;

verus! {

/// Nanoseconds in a second.
pub const NANOS_PER_SEC: u128 = 1_000_000_000;

/// How many ports are picked at random before all are tried in turn.
pub const RANDOM_TRIES: usize = 4;

/// Which of the ports.
pub type PortIndex = usize;

/// What the relay is told.
#[derive(Debug)]
pub enum CommunicationActorMessage {
    /// A packet arrived at a port from the given address: to be passed on to
    /// the local application, unless it is a bubble.
    PortData(PortIndex, Vec<u8>, SocketAddr),
    /// The local application wants this to be delivered to the peer.
    ClientData(Vec<u8>),
    /// A message arrived from the server.
    ControlMessage(IncomingControlMessage),
    /// The local application now has this address.
    NewClientPeerAddress(SocketAddr),
}

/// What is known about a port.
#[derive(Clone, Copy, Debug)]
pub struct PortStatus {
    /// When a packet last arrived.
    pub last_seen_packet: Option<u128>,
    /// Where the peer is according to the server.
    pub configured_peer_addr: Option<SocketAddr>,
    /// Where the last packet came from.
    pub seen_peer_addr: Option<SocketAddr>,
}

/// Through which socket a packet goes.
#[derive(Clone, Copy, Debug, PartialEq, Eq, Structural)]
pub enum Outlet {
    /// One of the ports.
    Port(PortIndex),
    /// The socket for the local application.
    Client,
}

/// A packet to be sent.
#[derive(Debug)]
pub struct Datagram {
    /// Through which socket.
    pub outlet: Outlet,
    /// To which address.
    pub to: SocketAddr,
    /// What to send.
    pub payload: Vec<u8>,
    /// Whether the address becomes the configured one of the port.
    pub configures: bool,
}

/// A packet to be sent, with what it carries as a sequence.
pub struct DatagramView {
    pub outlet: Outlet,
    pub to: SocketAddr,
    pub payload: Seq<u8>,
    pub configures: bool,
}

impl View for Datagram {
    type V = DatagramView;

    open spec fn view(&self) -> DatagramView {
        DatagramView {
            outlet: self.outlet,
            to: self.to,
            payload: self.payload@,
            configures: self.configures,
        }
    }
}

/// Why a message could not be handled.
#[derive(Clone, Copy, Debug, PartialEq, Eq, Structural)]
pub enum ActorError {
    /// A port is alive, but no address is known for it.
    NoAddress,
    /// No port is alive.
    NoUsablePorts,
    /// A packet could not be sent.
    SendFailed,
}

impl ActorError {
    /// The error in words.
    pub open spec fn text(self) -> Seq<char> {
        match self {
            ActorError::NoAddress => "Strange that no address, yet seen packets"@,
            ActorError::NoUsablePorts => "No usable ports to send now"@,
            ActorError::SendFailed => "A packet could not be sent"@,
        }
    }

    /// The error in words.
    pub fn message(&self) -> (r: &'static str)
        ensures
            r@ == self.text(),
            self is NoAddress ==> r@ == "Strange that no address, yet seen packets"@,
            self is NoUsablePorts ==> r@ == "No usable ports to send now"@,
            self is SendFailed ==> r@ == "A packet could not be sent"@,
    {
        match self {
            ActorError::NoAddress => "Strange that no address, yet seen packets",
            ActorError::NoUsablePorts => "No usable ports to send now",
            ActorError::SendFailed => "A packet could not be sent",
        }
    }
}

/// What is worth a remark about the handling of a message.
#[derive(Clone, Copy, Debug, PartialEq, Eq, Structural)]
pub enum Notice {
    /// A packet is dropped, as no address of the local application is known.
    NoClient,
    /// A packet goes to two addresses, as the peer was seen elsewhere than the
    /// server said.
    DifferentAddresses,
}

/// The search for a port through which a packet can go to the peer.
#[derive(Debug)]
pub struct PortHunt {
    /// The packet.
    pub buf: Vec<u8>,
    /// The ports that are tried before all are tried in turn.
    pub draws: Vec<usize>,
    /// How many of those were tried.
    pub drawn: usize,
    /// How many of all ports were tried in turn.
    pub next: usize,
}

/// What is left to do about a message.
#[derive(Debug)]
pub struct Exchange {
    /// The packets that are still to be sent.
    pub queue: VecDeque<Datagram>,
    /// How the handling ends once they are sent.
    pub outcome: Result<(), ActorError>,
    /// What is worth a remark.
    pub notice: Option<Notice>,
    /// The search for a port that is to be made first.
    pub hunt: Option<PortHunt>,
}

/// The next thing to do about a message.
#[derive(Debug)]
pub enum Action {
    /// Send a packet.
    Send(Datagram),
    /// Read the clock again: the port that was tried is not alive, and another
    /// one is to be tried.
    TryAnother,
    /// Nothing: the message is handled.
    Finish(Result<(), ActorError>),
}

/// The state of the relay.
#[derive(Debug)]
pub struct CommunicationActorState {
    /// Where the local application is.
    pub client_peer: Option<SocketAddr>,
    /// What is known about each port.
    pub port_statuses: Vec<PortStatus>,
    /// For how long a port counts as alive after a packet arrived at it.
    pub max_norecv_time: u128,
    /// The IPv4 address to use in place of the one that the server names.
    pub override_sendto_addr: Option<u32>,
}

impl PortStatus {
    /// A port about which nothing is known.
    pub open spec fn unknown() -> PortStatus {
        PortStatus {
            last_seen_packet: None,
            configured_peer_addr: None,
            seen_peer_addr: None,
        }
    }

    /// Whether a packet arrived at most `max` before `now`.
    pub open spec fn alive(self, now: u128, max: u128) -> bool {
        self.last_seen_packet matches Some(t) && now - t <= max
    }

    /// Where packets for the peer go: to the configured address, and to the
    /// one that it was seen at if that is another.
    pub open spec fn peers(self) -> Seq<SocketAddr> {
        match (self.configured_peer_addr, self.seen_peer_addr) {
            (None, None) => Seq::empty(),
            (Some(x), None) => seq![x],
            (None, Some(y)) => seq![y],
            (Some(x), Some(y)) => if x == y {
                seq![x]
            } else {
                seq![x, y]
            },
        }
    }
}

impl Default for PortStatus {
    /// A port about which nothing is known.
    fn default() -> (r: Self)
        ensures
            r == PortStatus::unknown(),
            r.last_seen_packet is None,
            r.configured_peer_addr is None,
            r.seen_peer_addr is None,
    {
        PortStatus { last_seen_packet: None, configured_peer_addr: None, seen_peer_addr: None }
    }
}

/// What a queue of packets holds.
pub open spec fn datagrams(q: Seq<Datagram>) -> Seq<DatagramView> {
    q.map_values(|d: Datagram| d@)
}

impl Exchange {
    /// The packets that are still to be sent.
    pub open spec fn pending(self) -> Seq<DatagramView> {
        datagrams(self.queue@)
    }

    /// Whether the packets that configure a port go through one of `n` ports,
    /// and the ports to be tried are such.
    pub open spec fn fits(self, n: nat) -> bool {
        &&& forall|i: int|
            0 <= i < self.queue@.len() && (#[trigger] self.queue@[i]).configures ==> match self.queue@[i].outlet {
                Outlet::Port(p) => p < n,
                Outlet::Client => false,
            }
        &&& self.hunt matches Some(h) ==> h.wf(n)
    }

    /// Nothing to send.
    fn nothing(outcome: Result<(), ActorError>, notice: Option<Notice>) -> (r: Exchange)
        ensures
            r.queue@ == Seq::<Datagram>::empty(),
            r.pending() == Seq::<DatagramView>::empty(),
            r.outcome == outcome,
            r.notice == notice,
            r.hunt is None,
    {
        let r = Exchange { queue: VecDeque::new(), outcome, notice, hunt: None };
        assert(r.pending() =~= Seq::<DatagramView>::empty());
        r
    }

    /// Takes note that a packet could not be sent: no more are.
    pub fn send_failed(&mut self)
        ensures
            final(self).queue@ == Seq::<Datagram>::empty(),
            final(self).pending() == Seq::<DatagramView>::empty(),
            final(self).outcome == Err::<(), _>(ActorError::SendFailed),
            final(self).notice == old(self).notice,
            final(self).hunt is None,
    {
        self.queue = VecDeque::new();
        self.hunt = None;
        self.outcome = Err(ActorError::SendFailed);
        assert(self.pending() =~= Seq::<DatagramView>::empty());
    }
}

/// A copy of some bytes.
fn copy_bytes(v: &Vec<u8>) -> (r: Vec<u8>)
    ensures
        r@ == v@,
{
    let r = v.clone();
    assert(r@ =~= v@);
    r
}

/// The order in which ports are tried: those picked at random, then all `n`.
pub open spec fn tries(draws: Seq<usize>, n: nat) -> Seq<usize> {
    draws + Seq::new(n, |i: int| i as usize)
}

impl PortHunt {
    /// Whether the ports to be tried are among `n`, no more tries were made
    /// than there are to make, and all are tried in turn after the others.
    pub open spec fn wf(self, n: nat) -> bool {
        &&& forall|i: int| 0 <= i < self.draws@.len() ==> #[trigger] self.draws@[i] < n
        &&& self.drawn <= self.draws@.len()
        &&& self.next <= n
        &&& self.next > 0 ==> self.drawn == self.draws@.len()
    }

    /// How many tries were made.
    pub open spec fn tried(self) -> int {
        self.drawn + self.next
    }

    /// The ports that are to be tried, of `n`.
    pub open spec fn order(self, n: nat) -> Seq<usize> {
        tries(self.draws@, n)
    }

    /// Whether this is `before`, one try later.
    pub open spec fn follows(self, before: PortHunt) -> bool {
        &&& self == (PortHunt { drawn: self.drawn, next: self.next, ..before })
        &&& self.tried() == before.tried() + 1
    }
}

impl CommunicationActorState {
    /// Whether there is a port, and each port at which a packet arrived has an
    /// address that it came from.
    pub open spec fn wf(self) -> bool {
        &&& self.port_statuses@.len() > 0
        &&& forall|i: int|
            0 <= i < self.port_statuses@.len() && (
            #[trigger] self.port_statuses@[i]).last_seen_packet is Some
                ==> self.port_statuses@[i].seen_peer_addr is Some
    }

    /// Whether a port is alive.
    pub open spec fn port_alive(self, i: int, now: u128) -> bool {
        self.port_statuses@[i].alive(now, self.max_norecv_time)
    }

    /// What is sent to the peer through a port.
    pub open spec fn sends(self, i: int, buf: Seq<u8>) -> Seq<DatagramView> {
        self.port_statuses@[i].peers().map_values(
            |a: SocketAddr|
                DatagramView {
                    outlet: Outlet::Port(i as usize),
                    to: a,
                    payload: buf,
                    configures: false,
                },
        )
    }

    /// A relay for as many ports as were opened.
    pub fn new(num_ports: usize, sendto: Option<SocketAddr>, settings: &ClientSettings) -> (r: Self)
        requires
            num_ports > 0,
            settings.keepalive_interval * 2 <= u64::MAX,
        ensures
            r.wf(),
            r.client_peer == sendto,
            r.port_statuses@ == Seq::new(num_ports as nat, |i: int| PortStatus::unknown()),
            r.port_statuses@.len() == num_ports,
            forall|i: int|
                0 <= i < num_ports ==> (#[trigger] r.port_statuses@[i]).last_seen_packet is None
                    && r.port_statuses@[i].configured_peer_addr is None
                    && r.port_statuses@[i].seen_peer_addr is None,
            r.max_norecv_time == settings.keepalive_interval * 2_000_000_000,
            r.max_norecv_time == settings.keepalive_interval * 2 * NANOS_PER_SEC,
            r.override_sendto_addr == settings.override_sendto_addr,
    {
        let mut port_statuses: Vec<PortStatus> = Vec::new();
        for i in 0..num_ports
            invariant
                port_statuses@ == Seq::new(i as nat, |j: int| PortStatus::unknown()),
        {
            port_statuses.push(PortStatus::default());
        }
        CommunicationActorState {
            client_peer: sendto,
            port_statuses,
            max_norecv_time: (settings.keepalive_interval * 2) as u128 * NANOS_PER_SEC,
            override_sendto_addr: settings.override_sendto_addr,
        }
    }

    /// What is sent to the peer if a port is tried: nothing if it is not
    /// alive.
    pub fn try_send_though_port(&self, i: PortIndex, buf: &Vec<u8>, now: u128) -> (r: Result<
        VecDeque<Datagram>,
        ActorError,
    >)
        requires
            i < self.port_statuses@.len(),
        ensures
            !self.port_alive(i as int, now) ==> r is Ok && r->Ok_0@ == Seq::<Datagram>::empty(),
            self.port_alive(i as int, now) && self.port_statuses@[i as int].peers().len() > 0 ==> r
                is Ok && datagrams(r->Ok_0@) == self.sends(i as int, buf@),
            self.port_alive(i as int, now) && self.port_statuses@[i as int].peers().len() == 0 ==> r
                == Err::<VecDeque<Datagram>, _>(ActorError::NoAddress),
            ({
                let s = self.port_statuses@[i as int];
                let alive = s.last_seen_packet matches Some(t) && now - t <= self.max_norecv_time;
                if !alive {
                    r matches Ok(q) && q@.len() == 0
                } else {
                    match (s.configured_peer_addr, s.seen_peer_addr) {
                        (None, None) => r is Err,
                        (Some(x), None) => r matches Ok(q) && q@.len() == 1 && q@[0].to == x,
                        (None, Some(y)) => r matches Ok(q) && q@.len() == 1 && q@[0].to == y,
                        (Some(x), Some(y)) => r matches Ok(q) && q@[0].to == x && if x == y {
                            q@.len() == 1
                        } else {
                            q@.len() == 2 && q@[1].to == y
                        },
                    }
                }
            }),
            r matches Ok(q) ==> forall|j: int|
                0 <= j < q@.len() ==> (#[trigger] q@[j]).payload@ == buf@ && q@[j].outlet
                    == Outlet::Port(i) && !q@[j].configures,
    {
        let status = self.port_statuses[i];
        let mut queue: VecDeque<Datagram> = VecDeque::new();
        let t: u128 = match status.last_seen_packet {
            None => {
                return Ok(queue);
            },
            Some(t) => t,
        };
        let norecv: u128 = now.saturating_sub(t);
        if norecv > self.max_norecv_time {
            return Ok(queue);
        }
        match (status.configured_peer_addr, status.seen_peer_addr) {
            (None, None) => {
                return Err(ActorError::NoAddress);
            },
            (Some(x), None) => {
                queue.push_back(Self::through_port(i, x, buf));
            },
            (None, Some(x)) => {
                queue.push_back(Self::through_port(i, x, buf));
            },
            (Some(x), Some(y)) => {
                queue.push_back(Self::through_port(i, x, buf));
                if x != y {
                    queue.push_back(Self::through_port(i, y, buf));
                }
            },
        }
        assert(datagrams(queue@) =~= self.sends(i as int, buf@));
        proof {
            law_packets_for_the_peer(*self, i, buf@, queue@);
        }
        Ok(queue)
    }

    /// A packet for the peer.
    fn through_port(i: PortIndex, to: SocketAddr, buf: &Vec<u8>) -> (r: Datagram)
        ensures
            r@ == (DatagramView { outlet: Outlet::Port(i), to, payload: buf@, configures: false }),
    {
        Datagram { outlet: Outlet::Port(i), to, payload: copy_bytes(buf), configures: false }
    }

    /// Begins the search for a port through which a packet can go to the peer:
    /// the given ports are tried first, and then all of them in turn.
    pub fn relay(&self, buf: Vec<u8>, draws: Vec<usize>) -> (r: Exchange)
        requires
            forall|i: int| 0 <= i < draws@.len() ==> #[trigger] draws@[i] < self.port_statuses@.len(),
        ensures
            r.fits(self.port_statuses@.len()),
            r.pending() == Seq::<DatagramView>::empty(),
            r.queue@.len() == 0,
            r.outcome == Ok::<_, ActorError>(()),
            r.notice is None,
            r.hunt == Some(PortHunt { buf, draws, drawn: 0, next: 0 }),
    {
        let mut r = Exchange::nothing(Ok(()), None);
        r.hunt = Some(PortHunt { buf, draws, drawn: 0, next: 0 });
        r
    }

    /// Whether a try of the next port at `now` leads from one exchange to
    /// another, with what is to be done upon it. A port that is alive gets the
    /// packet; where none is left to be tried, that is the error.
    pub open spec fn tries_port(self, before: Exchange, after: Exchange, now: u128, r: Action) -> bool {
        let h = before.hunt->0;
        let order = h.order(self.port_statuses@.len());
        if h.tried() >= order.len() {
            &&& r == Action::Finish(Err(ActorError::NoUsablePorts))
            &&& after.pending() == Seq::<DatagramView>::empty()
            &&& after.outcome == Err::<(), _>(ActorError::NoUsablePorts)
            &&& after.notice == before.notice
            &&& after.hunt is None
        } else {
            let i = order[h.tried()] as int;
            if !self.port_alive(i, now) {
                &&& r is TryAnother
                &&& after.pending() == Seq::<DatagramView>::empty()
                &&& after.outcome == before.outcome
                &&& after.notice == before.notice
                &&& after.hunt matches Some(g) && g.follows(h)
            } else if self.port_statuses@[i].peers().len() == 0 {
                &&& r == Action::Finish(Err(ActorError::NoAddress))
                &&& after.pending() == Seq::<DatagramView>::empty()
                &&& after.outcome == Err::<(), _>(ActorError::NoAddress)
                &&& after.notice == before.notice
                &&& after.hunt is None
            } else {
                &&& r matches Action::Send(d) && d@ == self.sends(i, h.buf@)[0]
                &&& after.pending() == self.sends(i, h.buf@).drop_first()
                &&& after.outcome == Ok::<_, ActorError>(())
                &&& after.notice == if self.port_statuses@[i].peers().len() > 1 {
                    Some(Notice::DifferentAddresses)
                } else {
                    before.notice
                }
                &&& after.hunt is None
            }
        }
    }

    /// Tries the next port.
    fn try_next_port(&self, ex: &mut Exchange, now: u128) -> (r: Action)
        requires
            old(ex).fits(self.port_statuses@.len()),
            old(ex).pending().len() == 0,
            old(ex).hunt is Some,
        ensures
            final(ex).fits(self.port_statuses@.len()),
            self.tries_port(*old(ex), *final(ex), now, r),
    {
        assert(ex.pending() =~= Seq::<DatagramView>::empty());
        let n: usize = self.port_statuses.len();
        match ex.hunt.take() {
            None => Action::Finish(ex.outcome),
            Some(mut h) => {
                let ghost order = h.order(n as nat);
                let by_draw: bool = h.drawn < h.draws.len();
                if !by_draw && h.next >= n {
                    ex.outcome = Err(ActorError::NoUsablePorts);
                    return Action::Finish(ex.outcome);
                }
                let i: usize = if by_draw {
                    h.draws[h.drawn]
                } else {
                    h.next
                };
                assert(order[h.tried()] == i);
                match self.try_send_though_port(i, &h.buf, now) {
                    Err(e) => {
                        ex.outcome = Err(e);
                        Action::Finish(ex.outcome)
                    },
                    Ok(mut queue) => {
                        let ghost all = queue@;
                        let two: bool = queue.len() > 1;
                        match queue.pop_front() {
                            None => {
                                if by_draw {
                                    h.drawn = h.drawn + 1;
                                } else {
                                    h.next = h.next + 1;
                                }
                                ex.hunt = Some(h);
                                Action::TryAnother
                            },
                            Some(d) => {
                                assert(datagrams(all).len() > 0);
                                assert(datagrams(all) == self.sends(i as int, h.buf@));
                                assert forall|j: int|
                                    0 <= j < all.len() implies !(#[trigger] all[j]).configures by {
                                    assert(datagrams(all)[j] == all[j]@);
                                }
                                assert(datagrams(all)[0] == d@);
                                assert(datagrams(queue@) =~= datagrams(all).drop_first());
                                assert forall|j: int|
                                    0 <= j < queue@.len() implies #[trigger] queue@[j] == all[j
                                    + 1] by {}
                                if two {
                                    ex.notice = Some(Notice::DifferentAddresses);
                                }
                                ex.outcome = Ok(());
                                ex.queue = queue;
                                Action::Send(d)
                            },
                        }
                    },
                }
            },
        }
    }

    /// The IPv4 address of the peer, given the masked one that the server
    /// named.
    pub open spec fn peer_ip(self, masked: u32) -> u32 {
        match self.override_sendto_addr {
            Some(ip) => ip,
            None => masked ^ IP_MASK,
        }
    }

    /// The bubbles that a control message leads to: one through each port for
    /// which it names one of the peer's, whose address becomes configured.
    pub open spec fn bubbles(self, masked_ip: u32, masked: Seq<u16>) -> Seq<DatagramView> {
        Seq::new(
            if self.port_statuses@.len() <= masked.len() {
                self.port_statuses@.len()
            } else {
                masked.len()
            },
            |i: int|
                DatagramView {
                    outlet: Outlet::Port(i as usize),
                    to: SocketAddr::V4 {
                        ip: self.peer_ip(masked_ip),
                        port: masked[i] ^ PORT_MASK,
                    },
                    payload: Seq::empty(),
                    configures: true,
                },
        )
    }

    /// The bubbles that a control message leads to.
    fn announce_back(&self, cm: &IncomingControlMessage) -> (r: Exchange)
        ensures
            r.pending() == self.bubbles(cm.ip, cm.ports@),
            r.outcome == Ok::<_, ActorError>(()),
            r.notice is None,
            r.hunt is None,
            r.fits(self.port_statuses@.len()),
    {
        let ip: u32 = match self.override_sendto_addr {
            Some(ip) => ip,
            None => cm.ip ^ IP_MASK,
        };
        let maxusableports: usize = if self.port_statuses.len() <= cm.ports.len() {
            self.port_statuses.len()
        } else {
            cm.ports.len()
        };
        let mut queue: VecDeque<Datagram> = VecDeque::new();
        for i in 0..maxusableports
            invariant
                ip == self.peer_ip(cm.ip),
                maxusableports == self.bubbles(cm.ip, cm.ports@).len(),
                maxusableports <= cm.ports@.len(),
                maxusableports <= self.port_statuses@.len(),
                queue@.len() == i,
                forall|j: int|
                    0 <= j < i ==> (#[trigger] queue@[j])@ == self.bubbles(cm.ip, cm.ports@)[j],
        {
            queue.push_back(
                Datagram {
                    outlet: Outlet::Port(i),
                    to: SocketAddr::V4 { ip, port: cm.ports[i] ^ PORT_MASK },
                    payload: Vec::new(),
                    configures: true,
                },
            );
        }
        let r = Exchange { queue, outcome: Ok(()), notice: None, hunt: None };
        assert(r.pending() =~= self.bubbles(cm.ip, cm.ports@));
        assert forall|j: int| 0 <= j < queue@.len() implies (#[trigger] queue@[j]).outlet
            == Outlet::Port(j as usize) by {
            assert(queue@[j]@ == self.bubbles(cm.ip, cm.ports@)[j]);
        }
        r
    }

    /// The state once a packet arrived at a port.
    pub open spec fn after_port_data(self, i: int, from: SocketAddr, now: u128) -> Seq<PortStatus> {
        self.port_statuses@.update(
            i,
            PortStatus {
                last_seen_packet: Some(now),
                configured_peer_addr: self.port_statuses@[i].configured_peer_addr,
                seen_peer_addr: Some(from),
            },
        )
    }

    /// What a packet that arrived at a port leads to: unless it is a bubble,
    /// it goes to the local application.
    pub open spec fn passed_on(self, ex: Exchange, buf: Seq<u8>) -> bool {
        &&& ex.outcome == Ok::<_, ActorError>(())
        &&& ex.pending() == match self.client_peer {
            Some(to) if buf.len() > 0 => seq![
                DatagramView { outlet: Outlet::Client, to, payload: buf, configures: false },
            ],
            _ => Seq::empty(),
        }
        &&& ex.notice == if buf.len() > 0 && self.client_peer is None {
            Some(Notice::NoClient)
        } else {
            None
        }
    }

    /// Handles a message: what is learnt from it is taken in, and what is to
    /// be done on account of it comes back. Through which port a packet for
    /// the peer goes is up to chance in part: some ports are picked at random,
    /// and are tried first.
    pub fn msg(&mut self, message: CommunicationActorMessage, now: u128) -> (r: Exchange)
        requires
            old(self).wf(),
            message matches CommunicationActorMessage::PortData(i, _, _) ==> i < old(
                self,
            ).port_statuses@.len(),
        ensures
            final(self).wf(),
            final(self).port_statuses@.len() == old(self).port_statuses@.len(),
            final(self).max_norecv_time == old(self).max_norecv_time,
            final(self).override_sendto_addr == old(self).override_sendto_addr,
            r.fits(final(self).port_statuses@.len()),
            r.hunt is Some <==> message is ClientData,
            match message {
                CommunicationActorMessage::ControlMessage(cm) => {
                    &&& *final(self) == *old(self)
                    &&& r.pending() == old(self).bubbles(cm.ip, cm.ports@)
                    &&& r.outcome == Ok::<_, ActorError>(())
                    &&& r.notice is None
                },
                CommunicationActorMessage::PortData(i, buf, from) => {
                    &&& final(self).port_statuses@ == old(self).after_port_data(i as int, from, now)
                    &&& final(self).client_peer == old(self).client_peer
                    &&& old(self).passed_on(r, buf@)
                    &&& final(self).port_statuses@[i as int].last_seen_packet == Some(now)
                    &&& final(self).port_statuses@[i as int].seen_peer_addr == Some(from)
                    &&& r.queue@.len() == 0 <==> buf@.len() == 0 || old(self).client_peer is None
                    &&& buf@.len() > 0 && old(self).client_peer is Some ==> {
                        &&& r.queue@.len() == 1
                        &&& r.queue@[0].payload@ == buf@
                        &&& r.queue@[0].outlet == Outlet::Client
                        &&& old(self).client_peer == Some(r.queue@[0].to)
                    }
                },
                CommunicationActorMessage::ClientData(buf) => {
                    &&& *final(self) == *old(self)
                    &&& r.pending() == Seq::<DatagramView>::empty()
                    &&& r.notice is None
                    &&& r.hunt matches Some(h) && h.buf == buf && h.draws@.len() == RANDOM_TRIES
                        && h.tried() == 0 && h.drawn == 0 && h.next == 0
                    &&& r.hunt->0.draws@.len() == 4
                    &&& r.queue@.len() == 0
                    &&& r.outcome == Ok::<_, ActorError>(())
                    &&& forall|k: int|
                        0 <= k < r.hunt->0.draws@.len() ==> index_drawn(
                            old(self).port_statuses.len(),
                            #[trigger] r.hunt->0.draws@[k],
                        )
                },
                CommunicationActorMessage::NewClientPeerAddress(addr) => {
                    &&& final(self).client_peer == Some(addr)
                    &&& final(self).port_statuses == old(self).port_statuses
                    &&& r.pending() == Seq::<DatagramView>::empty()
                    &&& r.outcome == Ok::<_, ActorError>(())
                    &&& r.notice is None
                },
            },
    {
        match message {
            CommunicationActorMessage::ControlMessage(cm) => self.announce_back(&cm),
            CommunicationActorMessage::PortData(idx, buf, from) => {
                let status = PortStatus {
                    last_seen_packet: Some(now),
                    configured_peer_addr: self.port_statuses[idx].configured_peer_addr,
                    seen_peer_addr: Some(from),
                };
                self.port_statuses.set(idx, status);
                if buf.is_empty() {
                    Exchange::nothing(Ok(()), None)
                } else {
                    match self.client_peer {
                        None => Exchange::nothing(Ok(()), Some(Notice::NoClient)),
                        Some(to) => {
                            let mut queue: VecDeque<Datagram> = VecDeque::new();
                            let ghost payload = buf@;
                            queue.push_back(
                                Datagram {
                                    outlet: Outlet::Client,
                                    to,
                                    payload: buf,
                                    configures: false,
                                },
                            );
                            let r = Exchange { queue, outcome: Ok(()), notice: None, hunt: None };
                            assert(r.queue@.len() == 1);
                            assert(r.pending() =~= seq![
                                DatagramView {
                                    outlet: Outlet::Client,
                                    to,
                                    payload,
                                    configures: false,
                                },
                            ]);
                            r
                        },
                    }
                }
            },
            CommunicationActorMessage::ClientData(buf) => {
                let n: usize = self.port_statuses.len();
                let mut draws: Vec<usize> = Vec::new();
                for k in 0..RANDOM_TRIES
                    invariant
                        n > 0,
                        draws@.len() == k,
                        forall|i: int| 0 <= i < draws@.len() ==> #[trigger] draws@[i] < n,
                        forall|i: int| 0 <= i < draws@.len() ==> index_drawn(n, #[trigger] draws@[i]),
                {
                    let drawn: usize = random_index(n);
                    proof {
                        lemma_index_drawn(n, drawn);
                    }
                    draws.push(drawn);
                }
                self.relay(buf, draws)
            },
            CommunicationActorMessage::NewClientPeerAddress(newaddr) => {
                self.client_peer = Some(newaddr);
                Exchange::nothing(Ok(()), None)
            },
        }
    }

    /// The ports once a packet is about to be sent: if it configures one, the
    /// address that it goes to is the configured one of that port.
    pub open spec fn configured_by(ports: Seq<PortStatus>, d: DatagramView) -> Seq<PortStatus> {
        if d.configures {
            match d.outlet {
                Outlet::Port(i) => ports.update(
                    i as int,
                    PortStatus { configured_peer_addr: Some(d.to), ..ports[i as int] },
                ),
                Outlet::Client => ports,
            }
        } else {
            ports
        }
    }

    /// The next thing to do about a message, with the clock at `now`.
    pub fn next_action(&mut self, ex: &mut Exchange, now: u128) -> (r: Action)
        requires
            old(self).wf(),
            old(ex).fits(old(self).port_statuses@.len()),
        ensures
            final(self).wf(),
            final(ex).fits(final(self).port_statuses@.len()),
            final(self).port_statuses@.len() == old(self).port_statuses@.len(),
            final(self).client_peer == old(self).client_peer,
            final(self).max_norecv_time == old(self).max_norecv_time,
            final(self).override_sendto_addr == old(self).override_sendto_addr,
            old(ex).pending().len() > 0 ==> {
                &&& r matches Action::Send(d) && d@ == old(ex).pending()[0]
                &&& final(ex).pending() == old(ex).pending().drop_first()
                &&& final(ex).outcome == old(ex).outcome
                &&& final(ex).notice == old(ex).notice
                &&& final(ex).hunt == old(ex).hunt
                &&& final(self).port_statuses@ == Self::configured_by(
                    old(self).port_statuses@,
                    old(ex).pending()[0],
                )
            },
            old(ex).queue@.len() > 0 ==> {
                &&& r == Action::Send(old(ex).queue@[0])
                &&& final(ex).queue@ == old(ex).queue@.drop_first()
                &&& !old(ex).queue@[0].configures ==> final(self).port_statuses@
                    == old(self).port_statuses@
                &&& old(ex).queue@[0].configures ==> (old(ex).queue@[0].outlet matches Outlet::Port(
                    p,
                ) && final(self).port_statuses@ == old(self).port_statuses@.update(
                    p as int,
                    PortStatus {
                        configured_peer_addr: Some(old(ex).queue@[0].to),
                        ..old(self).port_statuses@[p as int]
                    },
                ))
            },
            old(ex).pending().len() == 0 ==> *final(self) == *old(self),
            old(ex).pending().len() == 0 && old(ex).hunt is None ==> {
                &&& r == Action::Finish(old(ex).outcome)
                &&& *final(ex) == *old(ex)
            },
            old(ex).pending().len() == 0 && old(ex).hunt is Some ==> old(self).tries_port(
                *old(ex),
                *final(ex),
                now,
                r,
            ),
    {
        if ex.queue.len() == 0 {
            if ex.hunt.is_some() {
                return self.try_next_port(ex, now);
            }
            return Action::Finish(ex.outcome);
        }
        match ex.queue.pop_front() {
            None => Action::Finish(ex.outcome),
            Some(d) => {
                assert(old(ex).queue@[0] == d);
                assert(ex.pending() =~= old(ex).pending().drop_first());
                assert forall|i: int| 0 <= i < ex.queue@.len() implies #[trigger] ex.queue@[i]
                    == old(ex).queue@[i + 1] by {}
                if d.configures {
                    match d.outlet {
                        Outlet::Port(i) => {
                            let status = self.port_statuses[i];
                            self.port_statuses.set(
                                i,
                                PortStatus {
                                    last_seen_packet: status.last_seen_packet,
                                    configured_peer_addr: Some(d.to),
                                    seen_peer_addr: status.seen_peer_addr,
                                },
                            );
                        },
                        Outlet::Client => {},
                    }
                }
                Action::Send(d)
            },
        }
    }
}

/// Whether a search for a port goes from its beginning through `exs`, with the
/// given readings of the clock and what was to be done upon each try, to its
/// end.
pub open spec fn hunted(
    st: CommunicationActorState,
    exs: Seq<Exchange>,
    times: Seq<u128>,
    actions: Seq<Action>,
) -> bool {
    &&& times.len() > 0
    &&& exs.len() == times.len() + 1
    &&& actions.len() == times.len()
    &&& exs[0].pending().len() == 0
    &&& exs[0].fits(st.port_statuses@.len())
    &&& exs[0].notice is None
    &&& exs[0].hunt matches Some(h) && h.tried() == 0
    &&& forall|k: int|
        0 <= k < times.len() ==> st.tries_port(exs[k], exs[k + 1], #[trigger] times[k], actions[k])
    &&& forall|k: int| 0 <= k < actions.len() - 1 ==> #[trigger] actions[k] is TryAnother
    &&& !(actions.last() is TryAnother)
}

/// After some tries that found no port alive, that many tries were made.
proof fn lemma_hunt_goes_on(
    st: CommunicationActorState,
    exs: Seq<Exchange>,
    times: Seq<u128>,
    actions: Seq<Action>,
    k: int,
)
    requires
        hunted(st, exs, times, actions),
        0 <= k < times.len(),
    ensures
        exs[k].hunt matches Some(h) && h.tried() == k && h == (PortHunt {
            drawn: h.drawn,
            next: h.next,
            ..exs[0].hunt->0
        }),
        exs[k].notice is None,
        k <= exs[0].hunt->0.order(st.port_statuses@.len()).len(),
    decreases k,
{
    if k > 0 {
        lemma_hunt_goes_on(st, exs, times, actions, k - 1);
        assert(st.tries_port(exs[k - 1], exs[k - 1 + 1], times[k - 1], actions[k - 1]));
        assert(actions[k - 1] is TryAnother);
    }
}

/// How a search for a port ends, whatever ports are picked at random and
/// whenever the clock is read. The packet goes through the first port, in the
/// order in which they are tried, that is alive when it is tried, to one or
/// two addresses. If none is, that is the error. That a port is alive without
/// an address never happens.
pub proof fn law_packet_goes_through_the_first_live_port(
    st: CommunicationActorState,
    exs: Seq<Exchange>,
    times: Seq<u128>,
    actions: Seq<Action>,
)
    requires
        st.wf(),
        hunted(st, exs, times, actions),
    ensures
        ({
            let h = exs[0].hunt->0;
            let order = h.order(st.port_statuses@.len());
            let last = times.len() - 1;
            &&& forall|k: int| 0 <= k < last ==> !st.port_alive(order[k] as int, #[trigger] times[k])
            &&& last <= order.len()
            &&& last < order.len() ==> {
                let i = order[last] as int;
                &&& 0 <= i < st.port_statuses@.len()
                &&& st.port_alive(i, times[last])
                &&& 1 <= st.sends(i, h.buf@).len() <= 2
                &&& actions[last] matches Action::Send(d) && d@ == st.sends(i, h.buf@)[0]
                &&& exs.last().pending() == st.sends(i, h.buf@).drop_first()
                &&& exs.last().outcome == Ok::<_, ActorError>(())
                &&& exs.last().notice == if st.sends(i, h.buf@).len() == 2 {
                    Some(Notice::DifferentAddresses)
                } else {
                    None
                }
            }
            &&& last == order.len() ==> {
                &&& actions[last] == Action::Finish(Err(ActorError::NoUsablePorts))
                &&& exs.last().pending().len() == 0
                &&& exs.last().outcome == Err::<(), _>(ActorError::NoUsablePorts)
                &&& exs.last().notice is None
            }
        }),
{
    let n = st.port_statuses@.len();
    let h = exs[0].hunt->0;
    let order = h.order(n);
    let last = times.len() - 1;
    assert(n == st.port_statuses.len());
    assert forall|k: int| 0 <= k < last implies !st.port_alive(
        order[k] as int,
        #[trigger] times[k],
    ) by {
        lemma_hunt_goes_on(st, exs, times, actions, k);
        assert(st.tries_port(exs[k], exs[k + 1], times[k], actions[k]));
        assert(actions[k] is TryAnother);
    }
    lemma_hunt_goes_on(st, exs, times, actions, last);
    assert(st.tries_port(exs[last], exs[last + 1], times[last], actions[last]));
    if last < order.len() {
        let i = order[last] as int;
        if last < h.draws@.len() {
            assert(order[last] == h.draws@[last]);
        } else {
            assert(order[last] == (last - h.draws@.len()) as usize);
        }
        assert(st.port_alive(i, times[last]));
        assert(st.port_statuses@[i].seen_peer_addr is Some);
    }
}

/// Whatever ports are picked at random, a packet for the peer is relayed if
/// some port is still alive at the last reading of the clock, and is not if
/// none was alive at the first. A port that is not alive stays so for as long
/// as no packet arrives.
pub proof fn law_packet_is_relayed_if_any_port_is_alive(
    st: CommunicationActorState,
    exs: Seq<Exchange>,
    times: Seq<u128>,
    actions: Seq<Action>,
)
    requires
        st.wf(),
        hunted(st, exs, times, actions),
        forall|j: int, k: int| 0 <= j <= k < times.len() ==> #[trigger] times[j] <= #[trigger] times[k],
    ensures
        (exists|i: int|
            0 <= i < st.port_statuses@.len() && #[trigger] st.port_alive(i, times.last()))
            ==> exs.last().outcome is Ok && actions.last() is Send,
        (forall|i: int|
            0 <= i < st.port_statuses@.len() ==> !#[trigger] st.port_alive(i, times[0]))
            ==> actions.last() == Action::Finish(Err(ActorError::NoUsablePorts)),
{
    law_packet_goes_through_the_first_live_port(st, exs, times, actions);
    let n = st.port_statuses@.len();
    let h = exs[0].hunt->0;
    let order = h.order(n);
    let last = times.len() - 1;
    assert(n == st.port_statuses.len());
    if exists|i: int| 0 <= i < n && #[trigger] st.port_alive(i, times.last()) {
        let i = choose|i: int| 0 <= i < n && #[trigger] st.port_alive(i, times.last());
        let k = h.draws@.len() + i;
        assert(order[k] == i as usize);
        if k < last {
            assert(times[k] <= times[last]);
            assert(!st.port_alive(order[k] as int, times[k]));
        }
    }
    if last < order.len() {
        assert(times[0] <= times[last]);
        assert(st.port_alive(order[last] as int, times[last]));
        assert(st.port_alive(order[last] as int, times[0]));
    }
}

/// What is sent to the peer through a port: packets that carry exactly the
/// given bytes, through that port, to the address that the server named and to
/// the one that the peer was seen at, to one packet only where they are the
/// same or one of them is not known.
pub proof fn law_packets_for_the_peer(
    st: CommunicationActorState,
    i: usize,
    buf: Seq<u8>,
    q: Seq<Datagram>,
)
    requires
        i < st.port_statuses@.len(),
        datagrams(q) == st.sends(i as int, buf),
    ensures
        forall|j: int|
            0 <= j < q.len() ==> (#[trigger] q[j]).payload@ == buf && q[j].outlet == Outlet::Port(i)
                && !q[j].configures,
        match (
            st.port_statuses@[i as int].configured_peer_addr,
            st.port_statuses@[i as int].seen_peer_addr,
        ) {
            (None, None) => q.len() == 0,
            (Some(x), None) => q.len() == 1 && q[0].to == x,
            (None, Some(y)) => q.len() == 1 && q[0].to == y,
            (Some(x), Some(y)) => if x == y {
                q.len() == 1 && q[0].to == x
            } else {
                q.len() == 2 && q[0].to == x && q[1].to == y
            },
        },
{
    let v = st.sends(i as int, buf);
    assert(q.len() == v.len());
    assert forall|j: int| 0 <= j < q.len() implies (#[trigger] q[j]).payload@ == buf && q[j].outlet
        == Outlet::Port(i) && !q[j].configures && q[j].to
        == st.port_statuses@[i as int].peers()[j] by {
        assert(datagrams(q)[j] == q[j]@);
        assert(v[j] == q[j]@);
    }
}

/// Where a packet of the local application goes, on the fields of what is
/// sent. It goes through a port at which a packet arrived no longer before the
/// reading of the clock than the longest silence, with all its bytes and no
/// others, to the address that the server named for that port, or to the one
/// that the peer was seen at there; what is still to be sent after that goes
/// through the same port, with the same bytes, to the latter. The port is the
/// first such in the order: those picked at random, then each in turn.
pub proof fn law_application_data_reaches_the_peer_whole(
    st: CommunicationActorState,
    exs: Seq<Exchange>,
    times: Seq<u128>,
    actions: Seq<Action>,
    d: Datagram,
)
    requires
        st.wf(),
        hunted(st, exs, times, actions),
        actions.last() == Action::Send(d),
    ensures
        d.payload@ == exs[0].hunt->0.buf@,
        !d.configures,
        d.outlet matches Outlet::Port(i) && i < st.port_statuses@.len() && {
            let h = exs[0].hunt->0;
            let last = times.len() - 1;
            let s = st.port_statuses@[i as int];
            let rest = exs.last().queue@;
            &&& s.last_seen_packet matches Some(t) && times.last() - t <= st.max_norecv_time
            &&& last < h.draws@.len() ==> i == h.draws@[last]
            &&& last >= h.draws@.len() ==> i == last - h.draws@.len()
            &&& s.configured_peer_addr matches Some(x) ==> d.to == x
            &&& s.configured_peer_addr is None ==> s.seen_peer_addr == Some(d.to)
            &&& s.configured_peer_addr is Some && s.seen_peer_addr is Some
                && s.configured_peer_addr != s.seen_peer_addr <==> rest.len() > 0
            &&& rest.len() <= 1
            &&& forall|j: int|
                0 <= j < rest.len() ==> (#[trigger] rest[j]).payload@ == h.buf@ && rest[j].outlet
                    == Outlet::Port(i) && !rest[j].configures && s.seen_peer_addr == Some(
                    rest[j].to,
                )
        },
{
    law_packet_goes_through_the_first_live_port(st, exs, times, actions);
    let n = st.port_statuses@.len();
    let h = exs[0].hunt->0;
    let order = h.order(n);
    let last = times.len() - 1;
    assert(n == st.port_statuses.len());
    assert(last < order.len());
    if last < h.draws@.len() {
        assert(order[last] == h.draws@[last]);
    } else {
        assert(order[last] == (last - h.draws@.len()) as usize);
    }
    let i = order[last];
    let rest = exs.last().queue@;
    let q = seq![d] + rest;
    let v = st.sends(i as int, h.buf@);
    assert(actions.last() == actions[last]);
    assert(d@ == v[0]);
    assert(datagrams(rest) == v.drop_first());
    assert(rest.len() == datagrams(rest).len());
    assert(datagrams(q) =~= v) by {
        assert forall|j: int| 0 <= j < q.len() implies datagrams(q)[j] == v[j] by {
            if j > 0 {
                assert(q[j] == rest[j - 1]);
                assert(datagrams(rest)[j - 1] == rest[j - 1]@);
            }
        }
    }
    law_packets_for_the_peer(st, i, h.buf@, q);
    assert(q[0] == d);
    assert forall|j: int| 0 <= j < rest.len() implies #[trigger] rest[j] == q[j + 1] by {}
}

/// A packet that a port is tried for before the one that it goes through finds
/// that no packet arrived there, or too long ago; and where none is sent, the
/// same is so of every port.
pub proof fn law_ports_passed_over_are_silent(
    st: CommunicationActorState,
    exs: Seq<Exchange>,
    times: Seq<u128>,
    actions: Seq<Action>,
    k: int,
)
    requires
        st.wf(),
        hunted(st, exs, times, actions),
        0 <= k < times.len() - 1,
    ensures
        ({
            let h = exs[0].hunt->0;
            let i = if k < h.draws@.len() {
                h.draws@[k] as int
            } else {
                k - h.draws@.len()
            };
            &&& 0 <= i < st.port_statuses@.len()
            &&& match st.port_statuses@[i].last_seen_packet {
                None => true,
                Some(t) => times[k] - t > st.max_norecv_time,
            }
        }),
        !(actions.last() is Send) ==> {
            &&& times.len() - 1 == exs[0].hunt->0.draws@.len() + st.port_statuses@.len()
            &&& actions.last() == Action::Finish(Err(ActorError::NoUsablePorts))
        },
{
    law_packet_goes_through_the_first_live_port(st, exs, times, actions);
    let n = st.port_statuses@.len();
    let h = exs[0].hunt->0;
    let order = h.order(n);
    assert(n == st.port_statuses.len());
    assert(!st.port_alive(order[k] as int, times[k]));
    if k < h.draws@.len() {
        assert(order[k] == h.draws@[k]);
    } else {
        assert(order[k] == (k - h.draws@.len()) as usize);
    }
}

/// A packet that arrives from the peer goes to the local application: exactly
/// if it is not empty and an address of the application is known, one packet
/// is to be sent, through the application's socket, to that address, with the
/// bytes that arrived. That no address is known for one that is not empty is
/// worth a remark, and nothing else is.
pub proof fn law_packets_from_the_peer_reach_the_application(
    st: CommunicationActorState,
    ex: Exchange,
    buf: Seq<u8>,
)
    requires
        st.passed_on(ex, buf),
    ensures
        ex.outcome is Ok,
        ex.queue@.len() == 0 <==> buf.len() == 0 || st.client_peer is None,
        buf.len() > 0 && st.client_peer is Some ==> {
            &&& ex.queue@.len() == 1
            &&& ex.queue@[0].payload@ == buf
            &&& ex.queue@[0].outlet == Outlet::Client
            &&& st.client_peer == Some(ex.queue@[0].to)
            &&& !ex.queue@[0].configures
        },
        ex.notice == Some(Notice::NoClient) <==> buf.len() > 0 && st.client_peer is None,
        ex.notice is None <==> buf.len() == 0 || st.client_peer is Some,
{
    assert(ex.pending().len() == ex.queue@.len());
    if ex.queue@.len() > 0 {
        assert(ex.pending()[0] == ex.queue@[0]@);
    }
}

/// What the application of one client sends is what the application of the
/// other one gets: the packet that one relay sends for it, and each that is
/// still to be sent after that, makes the other relay, where it arrives, send
/// the very same bytes to its own application.
pub proof fn law_data_travels_from_application_to_application(
    st: CommunicationActorState,
    exs: Seq<Exchange>,
    times: Seq<u128>,
    actions: Seq<Action>,
    d: Datagram,
    peer: CommunicationActorState,
    arrived: Datagram,
    ex: Exchange,
)
    requires
        st.wf(),
        hunted(st, exs, times, actions),
        actions.last() == Action::Send(d),
        arrived == d || exs.last().queue@.contains(arrived),
        exs[0].hunt->0.buf@.len() > 0,
        peer.client_peer is Some,
        peer.passed_on(ex, arrived.payload@),
    ensures
        ex.queue@.len() == 1,
        ex.queue@[0].payload@ == exs[0].hunt->0.buf@,
        ex.queue@[0].outlet == Outlet::Client,
        peer.client_peer == Some(ex.queue@[0].to),
{
    law_application_data_reaches_the_peer_whole(st, exs, times, actions, d);
    if arrived != d {
        let rest = exs.last().queue@;
        let j = choose|j: int| 0 <= j < rest.len() && rest[j] == arrived;
        assert(rest[j].payload@ == exs[0].hunt->0.buf@);
    }
    law_packets_from_the_peer_reach_the_application(peer, ex, arrived.payload@);
}

/// What is known about the ports once a packet arrived at one of them: that it
/// arrived there now, and from where; the rest is as before.
pub proof fn law_what_a_packet_teaches(
    st: CommunicationActorState,
    i: int,
    from: SocketAddr,
    now: u128,
    j: int,
)
    requires
        0 <= i < st.port_statuses@.len(),
        0 <= j < st.port_statuses@.len(),
    ensures
        st.after_port_data(i, from, now).len() == st.port_statuses@.len(),
        j != i ==> st.after_port_data(i, from, now)[j] == st.port_statuses@[j],
        st.after_port_data(i, from, now)[i].last_seen_packet == Some(now),
        st.after_port_data(i, from, now)[i].seen_peer_addr == Some(from),
        st.after_port_data(i, from, now)[i].configured_peer_addr
            == st.port_statuses@[i].configured_peer_addr,
{
}

/// What a control message leads to, on the fields of what is to be sent: one
/// empty packet through each port for which it names one of the peer's, to
/// that port of the peer, whose IP address is the named one unless another is
/// to be used; and that becomes the configured address of the port.
pub proof fn law_bubbles_of_a_control_message(
    st: CommunicationActorState,
    ex: Exchange,
    masked_ip: u32,
    masked: Seq<u16>,
)
    requires
        ex.pending() == st.bubbles(masked_ip, masked),
    ensures
        ex.queue@.len() <= st.port_statuses@.len(),
        ex.queue@.len() <= masked.len(),
        ex.queue@.len() == st.port_statuses@.len() || ex.queue@.len() == masked.len(),
        forall|i: int|
            0 <= i < ex.queue@.len() ==> {
                let d = #[trigger] ex.queue@[i];
                &&& d.outlet matches Outlet::Port(p) && p == i
                &&& d.payload@.len() == 0
                &&& d.configures
                &&& d.to matches SocketAddr::V4 { ip, port } && port == masked[i] ^ 0x8899u16 && ip
                    == match st.override_sendto_addr {
                    Some(o) => o,
                    None => masked_ip ^ 0x44556677u32,
                }
            },
{
    assert(st.port_statuses@.len() == st.port_statuses.len());
    assert(ex.pending().len() == ex.queue@.len());
    assert forall|i: int| 0 <= i < ex.queue@.len() implies {
        let d = #[trigger] ex.queue@[i];
        &&& d.outlet matches Outlet::Port(p) && p == i
        &&& d.payload@.len() == 0
        &&& d.configures
        &&& d.to matches SocketAddr::V4 { ip, port } && port == masked[i] ^ 0x8899u16 && ip
            == match st.override_sendto_addr {
            Some(o) => o,
            None => masked_ip ^ 0x44556677u32,
        }
    } by {
        assert(ex.pending()[i] == ex.queue@[i]@);
        assert(st.bubbles(masked_ip, masked)[i] == ex.queue@[i]@);
    }
}

/// A client at an IPv4 address that opened some ports and announced them gets
/// bubbles at those ports of that very address, unless the other client was
/// told to use another: what the server writes of the sender, and what the
/// client writes of its ports, is what the other client reads.
pub proof fn law_bubbles_reach_an_ipv4_client(
    st: CommunicationActorState,
    ex: Exchange,
    ports: Seq<u16>,
    masked: Seq<u16>,
    ip: u32,
    port: u16,
    i: int,
)
    requires
        0 <= i < ports.len(),
        i < st.port_statuses@.len(),
        masked.len() == ports.len(),
        forall|j: int| 0 <= j < ports.len() ==> #[trigger] masked[j] == ports[j] ^ PORT_MASK,
        ex.pending() == st.bubbles(sender_ip(SocketAddr::V4 { ip, port }) ^ IP_MASK, masked),
    ensures
        i < ex.queue@.len(),
        st.override_sendto_addr is None ==> ex.queue@[i].to == (SocketAddr::V4 {
            ip,
            port: ports[i],
        }),
        st.override_sendto_addr matches Some(o) ==> ex.queue@[i].to == (SocketAddr::V4 {
            ip: o,
            port: ports[i],
        }),
{
    law_bubbles_of_a_control_message(
        st,
        ex,
        sender_ip(SocketAddr::V4 { ip, port }) ^ IP_MASK,
        masked,
    );
    law_ip_mask_undoes_itself(ip);
    law_port_mask_undoes_itself(ports[i]);
    assert(ex.queue@[i].outlet is Port);
}

/// A port at which a packet arrived is alive for as long as no more than the
/// longest silence has passed since, and packets for the peer go to where that
/// packet came from, among other places.
pub proof fn law_port_is_alive_after_a_packet(
    st: CommunicationActorState,
    i: int,
    from: SocketAddr,
    now: u128,
    later: u128,
)
    requires
        0 <= i < st.port_statuses@.len(),
    ensures
        st.after_port_data(i, from, now)[i].alive(later, st.max_norecv_time) <==> later - now
            <= st.max_norecv_time,
        st.after_port_data(i, from, now)[i].peers().contains(from),
{
    let p = st.after_port_data(i, from, now)[i].peers();
    assert(p[p.len() - 1] == from);
}

/// The ports once the first `k` of some packets were about to be sent.
pub open spec fn configured_by_first(
    ports: Seq<PortStatus>,
    ds: Seq<DatagramView>,
    k: int,
) -> Seq<PortStatus>
    decreases k,
{
    if k <= 0 {
        ports
    } else {
        CommunicationActorState::configured_by(configured_by_first(ports, ds, k - 1), ds[k - 1])
    }
}

/// When the first `k` bubbles on account of a control message were about to be
/// sent, whether or not the last of them could be, the first `k` ports have
/// the addresses that the bubbles went to; nothing else about the ports has
/// changed.
pub proof fn law_bubbles_configure_ports_in_order(
    st: CommunicationActorState,
    masked_ip: u32,
    masked: Seq<u16>,
    k: int,
)
    requires
        0 <= k <= st.bubbles(masked_ip, masked).len(),
    ensures
        configured_by_first(st.port_statuses@, st.bubbles(masked_ip, masked), k) == Seq::new(
            st.port_statuses@.len(),
            |i: int|
                if i < k {
                    PortStatus {
                        configured_peer_addr: Some(st.bubbles(masked_ip, masked)[i].to),
                        ..st.port_statuses@[i]
                    }
                } else {
                    st.port_statuses@[i]
                },
        ),
    decreases k,
{
    let ds = st.bubbles(masked_ip, masked);
    let r = configured_by_first(st.port_statuses@, ds, k);
    assert(st.port_statuses@.len() == st.port_statuses.len());
    if k > 0 {
        law_bubbles_configure_ports_in_order(st, masked_ip, masked, k - 1);
        assert(ds[k - 1].outlet == Outlet::Port((k - 1) as usize));
    }
    assert(r =~= Seq::new(
        st.port_statuses@.len(),
        |i: int|
            if i < k {
                PortStatus { configured_peer_addr: Some(ds[i].to), ..st.port_statuses@[i] }
            } else {
                st.port_statuses@[i]
            },
    ));
}

/// A client that opened `ports` and announced them, and whose announcement
/// reached the server from `from`, gets bubbles at those ports: at the address
/// that the server saw, unless the other client was told to use another.
pub proof fn law_bubbles_go_to_the_announced_ports(
    st: CommunicationActorState,
    ports: Seq<u16>,
    from: SocketAddr,
    i: int,
)
    requires
        0 <= i < ports.len(),
        i < st.port_statuses@.len(),
    ensures
        i < st.bubbles(sender_ip(from) ^ IP_MASK, masked_ports(ports)).len(),
        st.bubbles(sender_ip(from) ^ IP_MASK, masked_ports(ports))[i].to == (SocketAddr::V4 {
            ip: match st.override_sendto_addr {
                Some(ip) => ip,
                None => sender_ip(from),
            },
            port: ports[i],
        }),
{
    law_ip_mask_undoes_itself(sender_ip(from));
    law_port_mask_undoes_itself(ports[i]);
}

} // verus!
