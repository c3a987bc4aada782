//! The announcements that a client makes to the server, and what it does with
//! the packets that come in from the server and from the local application.
use crate::actor::CommunicationActorMessage;
use crate::addr::SocketAddr;
use crate::wire::{mask_ports, masked_ports, IncomingControlMessage, OutgoingControlMessage};
use vstd::prelude::*;

verus! {

/// What a client announces, time and again.
#[derive(Debug)]
pub struct Advertiser {
    /// The announcement that is sent next.
    pub advertisment: OutgoingControlMessage,
    /// Whether none was sent yet.
    pub first: bool,
}

impl Advertiser {
    /// Whether an early answer is asked for in the first announcement only.
    pub open spec fn wf(self) -> bool {
        self.advertisment.disc == self.first
    }

    /// Whether this is `before`, one announcement later.
    pub open spec fn follows(self, before: Advertiser) -> bool {
        &&& self.advertisment.na == before.advertisment.na
        &&& self.advertisment.ports == before.advertisment.ports
        &&& !self.advertisment.disc
        &&& !self.first
    }

    /// The announcements of a client that opened `ports`.
    pub fn new(name: String, ports: &Vec<u16>) -> (r: Advertiser)
        ensures
            r.wf(),
            r.advertisment.na == name,
            r.advertisment.ports@ == masked_ports(ports@),
            r.advertisment.ports@.len() == ports@.len(),
            forall|i: int|
                0 <= i < ports@.len() ==> #[trigger] r.advertisment.ports@[i] == ports@[i]
                    ^ 0x8899u16,
            r.advertisment.disc,
            r.first,
    {
        Advertiser {
            advertisment: OutgoingControlMessage { na: name, ports: mask_ports(ports), disc: true },
            first: true,
        }
    }

    /// Takes note that the announcement was sent, or could not be, and says
    /// whether the next one differs from it.
    pub fn sent(&mut self) -> (changed: bool)
        requires
            old(self).wf(),
        ensures
            final(self).wf(),
            final(self).follows(*old(self)),
            changed == old(self).first,
            final(self).advertisment.na == old(self).advertisment.na,
            final(self).advertisment.ports == old(self).advertisment.ports,
            !final(self).advertisment.disc,
            !final(self).first,
    {
        if self.first {
            self.first = false;
            self.advertisment.disc = false;
            true
        } else {
            false
        }
    }
}

/// What a client can act upon, other than traffic.
#[derive(Debug)]
pub enum ClientEvent {
    /// The keep-alive interval is over, or the client has just started.
    Tick,
    /// A packet came from the server; nothing if it could not be decoded.
    FromServer(Option<IncomingControlMessage>),
}

/// What a client does upon an event.
#[derive(Debug)]
pub struct Reaction {
    /// Whether it announces itself.
    pub announce: bool,
    /// What it tells the relay.
    pub relay: Option<CommunicationActorMessage>,
}

impl ClientEvent {
    /// Whether it is a message that asks for an early answer.
    pub open spec fn asks(self) -> bool {
        self matches ClientEvent::FromServer(Some(m)) && m.disc
    }

    /// Whether the client announces itself upon the event.
    pub open spec fn announces(self) -> bool {
        self is Tick || self.asks()
    }

    /// What the relay is told upon the event.
    pub open spec fn relays(self) -> Option<CommunicationActorMessage> {
        match self {
            ClientEvent::FromServer(Some(m)) => Some(CommunicationActorMessage::ControlMessage(m)),
            _ => None,
        }
    }
}

/// What a client does upon an event.
pub fn react(event: ClientEvent) -> (r: Reaction)
    ensures
        r.announce == event.announces(),
        r.relay == event.relays(),
        event is Tick ==> r.announce && r.relay is None,
        event matches ClientEvent::FromServer(None) ==> !r.announce && r.relay is None,
        event matches ClientEvent::FromServer(Some(m)) ==> r.announce == m.disc && r.relay == Some(
            CommunicationActorMessage::ControlMessage(m),
        ),
{
    match event {
        ClientEvent::Tick => Reaction { announce: true, relay: None },
        ClientEvent::FromServer(None) => Reaction { announce: false, relay: None },
        ClientEvent::FromServer(Some(m)) => Reaction {
            announce: m.disc,
            relay: Some(CommunicationActorMessage::ControlMessage(m)),
        },
    }
}

/// How many of some events are such.
pub open spec fn count_events(
    events: Seq<ClientEvent>,
    such: spec_fn(ClientEvent) -> bool,
) -> nat {
    events.filter(such).len()
}

/// How many announcements are made upon some events.
pub open spec fn announcements(events: Seq<ClientEvent>) -> nat {
    count_events(events, |e: ClientEvent| e.announces())
}

/// A client announces itself once for each tick and once for each message that
/// asks for an early answer, and never else.
pub proof fn law_one_announcement_per_tick_and_request(events: Seq<ClientEvent>)
    ensures
        announcements(events) == count_events(events, |e: ClientEvent| e is Tick) + count_events(
            events,
            |e: ClientEvent| e.asks(),
        ),
    decreases events.len(),
{
    reveal(Seq::filter);
    if events.len() > 0 {
        law_one_announcement_per_tick_and_request(events.drop_last());
    }
}

/// Upon a message of the server a client announces itself exactly if the
/// message asks for an early answer, whatever else is in it; upon a tick it
/// always does, and upon what it cannot decode never. Two messages that ask
/// alike are answered alike.
pub proof fn law_early_answer_depends_on_the_request_alone(
    m: IncomingControlMessage,
    other: IncomingControlMessage,
)
    ensures
        ClientEvent::FromServer(Some(m)).announces() <==> m.disc,
        ClientEvent::Tick.announces(),
        !ClientEvent::FromServer(None).announces(),
        m.disc == other.disc ==> ClientEvent::FromServer(Some(m)).announces()
            == ClientEvent::FromServer(Some(other)).announces(),
{
}

/// The number of announcements upon some events is the number of ticks among
/// them, and of decoded messages that ask for an early answer.
pub proof fn law_announcements_are_counted_by_ticks_and_requests(events: Seq<ClientEvent>)
    ensures
        announcements(events) == events.filter(|e: ClientEvent| e is Tick).len() + events.filter(
            |e: ClientEvent| e matches ClientEvent::FromServer(Some(m)) && m.disc,
        ).len(),
    decreases events.len(),
{
    reveal(Seq::filter);
    if events.len() > 0 {
        law_announcements_are_counted_by_ticks_and_requests(events.drop_last());
    }
}

/// One more event makes one more announcement exactly if it is a tick or a
/// decoded message that asks for an early answer.
pub proof fn law_one_more_event_one_more_announcement(events: Seq<ClientEvent>, e: ClientEvent)
    ensures
        announcements(events.push(e)) == announcements(events) + match e {
            ClientEvent::Tick => 1nat,
            ClientEvent::FromServer(Some(m)) => if m.disc {
                1nat
            } else {
                0nat
            },
            ClientEvent::FromServer(None) => 0nat,
        },
{
    reveal(Seq::filter);
    assert(events.push(e).drop_last() =~= events);
}

/// Whether `states` are those of a client's announcements as events come in:
/// upon an event by which the client announces itself it sends the
/// announcement that is due and takes note of it, and upon no other does
/// anything change.
pub open spec fn announcing(states: Seq<Advertiser>, events: Seq<ClientEvent>) -> bool {
    &&& states.len() == events.len() + 1
    &&& states[0].wf()
    &&& states[0].first
    &&& forall|i: int|
        0 <= i < events.len() ==> if (#[trigger] events[i]).announces() {
            states[i + 1].follows(states[i])
        } else {
            states[i + 1] == states[i]
        }
}

/// What a client announces upon an event, whatever came before: its name and
/// ports, and the wish for an early answer exactly if nothing was announced
/// before.
pub proof fn law_what_is_announced(states: Seq<Advertiser>, events: Seq<ClientEvent>, i: int)
    requires
        announcing(states, events),
        0 <= i <= events.len(),
    ensures
        states[i].advertisment.na == states[0].advertisment.na,
        states[i].advertisment.ports == states[0].advertisment.ports,
        states[i].advertisment.disc == (announcements(events.take(i)) == 0),
    decreases i,
{
    reveal(Seq::filter);
    if i > 0 {
        law_what_is_announced(states, events, i - 1);
        assert(events.take(i).drop_last() =~= events.take(i - 1));
        assert(events.take(i).last() == events[i - 1]);
    }
}

/// What the relay is told upon some events, in order.
pub open spec fn relayed_messages(events: Seq<ClientEvent>) -> Seq<CommunicationActorMessage>
    decreases events.len(),
{
    if events.len() == 0 {
        Seq::empty()
    } else {
        match events.last().relays() {
            Some(m) => relayed_messages(events.drop_last()).push(m),
            None => relayed_messages(events.drop_last()),
        }
    }
}

/// Each message of the server that can be decoded reaches the relay, whether
/// or not it asks for an early answer, in order, and nothing else does.
pub proof fn law_each_decoded_message_reaches_the_relay(events: Seq<ClientEvent>)
    ensures
        relayed_messages(events) == events.filter(
            |e: ClientEvent| e matches ClientEvent::FromServer(Some(_)),
        ).map_values(
            |e: ClientEvent| CommunicationActorMessage::ControlMessage(e->FromServer_0->Some_0),
        ),
    decreases events.len(),
{
    reveal(Seq::filter);
    let such = |e: ClientEvent| e matches ClientEvent::FromServer(Some(_));
    let told = |e: ClientEvent|
        CommunicationActorMessage::ControlMessage(e->FromServer_0->Some_0);
    if events.len() > 0 {
        law_each_decoded_message_reaches_the_relay(events.drop_last());
        assert(relayed_messages(events) =~= events.filter(such).map_values(told));
    } else {
        assert(relayed_messages(events) =~= events.filter(such).map_values(told));
    }
}

/// The relay is told each decoded message itself, and nothing upon any other
/// event.
pub proof fn law_relay_is_told_the_message_itself(m: IncomingControlMessage)
    ensures
        ClientEvent::FromServer(Some(m)).relays() == Some(
            CommunicationActorMessage::ControlMessage(m),
        ),
        ClientEvent::Tick.relays() is None,
        ClientEvent::FromServer(None).relays() is None,
{
}

/// What a packet from the local application leads to, in order. Where there is
/// a fixed address for the application, packets from elsewhere are dropped;
/// where there is none, the relay is told first where the packet came from.
pub fn client_packet(
    sendto: &Option<SocketAddr>,
    from: SocketAddr,
    buf: Vec<u8>,
) -> (r: Vec<CommunicationActorMessage>)
    ensures
        r@ == match *sendto {
            Some(forced) => if from == forced {
                seq![CommunicationActorMessage::ClientData(buf)]
            } else {
                Seq::empty()
            },
            None => seq![
                CommunicationActorMessage::NewClientPeerAddress(from),
                CommunicationActorMessage::ClientData(buf),
            ],
        },
{
    let mut r: Vec<CommunicationActorMessage> = Vec::new();
    match *sendto {
        Some(forced) => {
            if from == forced {
                r.push(CommunicationActorMessage::ClientData(buf));
            }
        },
        None => {
            r.push(CommunicationActorMessage::NewClientPeerAddress(from));
            r.push(CommunicationActorMessage::ClientData(buf));
        },
    }
    r
}

} // verus!
