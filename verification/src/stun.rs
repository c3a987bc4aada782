//! Asking the server under which number a port is seen.
//!
//! A control message without a name comes back to its sender with the address
//! that the server saw, so a message sent from each port tells the number that
//! an address translator gave to it.
use crate::addr::SocketAddr;
use crate::wire::{
    law_port_mask_undoes_itself, IncomingControlMessage, OutgoingControlMessage, PORT_MASK,
};
use vstd::prelude::*;

verus! {

/// How often the server is asked for the number of a port.
pub const STUN_ATTEMPTS: usize = 4;

/// The message that is sent from a port to learn its number: it has no name.
pub fn request() -> (r: OutgoingControlMessage)
    ensures
        r.na@ == Seq::<char>::empty(),
        r.ports@ == Seq::<u16>::empty(),
        !r.disc,
{
    OutgoingControlMessage { na: String::new(), ports: Vec::new(), disc: false }
}

/// The number under which the server saw the port that a message was sent
/// from.
pub fn mapped_port(reply: &IncomingControlMessage) -> (r: u16)
    ensures
        r == reply.po ^ PORT_MASK,
{
    reply.po ^ PORT_MASK
}

/// What a packet that arrived at a port from `from` says about its number:
/// nothing if it cannot be decoded or does not come from the server.
pub fn reply_port(
    server: &SocketAddr,
    from: &SocketAddr,
    reply: &Option<IncomingControlMessage>,
) -> (r: Option<u16>)
    ensures
        r == match *reply {
            Some(m) if *from == *server => Some(m.po ^ PORT_MASK),
            _ => None,
        },
{
    if *from != *server {
        return None;
    }
    match reply {
        Some(m) => Some(mapped_port(m)),
        None => None,
    }
}

/// What to do about a question to the server.
#[derive(Clone, Copy, Debug, PartialEq, Eq, Structural)]
pub enum QueryStep {
    /// Ask it again.
    Ask,
    /// Nothing: the number is known, or will not be.
    Done(Option<u16>),
}

/// A question to the server for the number of a port, which was asked.
#[derive(Clone, Copy, Debug, PartialEq, Eq, Structural)]
pub struct PortQuery {
    /// How often it can be asked again.
    pub attempts_left: usize,
}

impl PortQuery {
    /// A question that was asked once.
    pub fn new() -> (r: PortQuery)
        ensures
            r.attempts_left == STUN_ATTEMPTS - 1,
    {
        PortQuery { attempts_left: STUN_ATTEMPTS - 1 }
    }

    /// What an answer, or that there was none, leads to.
    pub open spec fn leads_to(self, after: PortQuery, reply: Option<u16>, r: QueryStep) -> bool {
        if reply is Some || self.attempts_left == 0 {
            r == QueryStep::Done(reply) && after == self
        } else {
            r == QueryStep::Ask && after.attempts_left == self.attempts_left - 1
        }
    }

    /// Takes note of an answer, or that there was none, and says what to do:
    /// the question is asked again if there was none, unless it was asked
    /// often enough.
    pub fn answered(&mut self, reply: Option<u16>) -> (r: QueryStep)
        ensures
            old(self).leads_to(*final(self), reply, r),
            reply is Some ==> r == QueryStep::Done(reply),
            reply is None && old(self).attempts_left == 0 ==> r == QueryStep::Done(None),
            reply is None && old(self).attempts_left > 0 ==> r == QueryStep::Ask
                && final(self).attempts_left == old(self).attempts_left - 1,
    {
        if reply.is_some() || self.attempts_left == 0 {
            QueryStep::Done(reply)
        } else {
            self.attempts_left = self.attempts_left - 1;
            QueryStep::Ask
        }
    }
}

/// A question is asked again after each time that there was no answer, until
/// it was asked as often as it may be.
pub proof fn law_question_is_asked_a_few_times(
    states: Seq<PortQuery>,
    replies: Seq<Option<u16>>,
    steps: Seq<QueryStep>,
    k: int,
)
    requires
        states.len() == replies.len() + 1,
        steps.len() == replies.len(),
        states[0].attempts_left == STUN_ATTEMPTS - 1,
        forall|i: int|
            0 <= i < replies.len() ==> states[i].leads_to(
                states[i + 1],
                #[trigger] replies[i],
                steps[i],
            ),
        0 <= k < replies.len(),
        forall|i: int| 0 <= i < k ==> #[trigger] steps[i] is Ask,
    ensures
        k < STUN_ATTEMPTS,
        forall|i: int| 0 <= i < k ==> #[trigger] replies[i] is None,
        steps[k] == if replies[k] is None && k < STUN_ATTEMPTS - 1 {
            QueryStep::Ask
        } else {
            QueryStep::Done(replies[k])
        },
        steps[k] is Ask ==> states[k + 1].attempts_left == STUN_ATTEMPTS - 2 - k,
    decreases k,
{
    assert(states[k].leads_to(states[k + 1], replies[k], steps[k]));
    if k > 0 {
        law_question_is_asked_a_few_times(states, replies, steps, k - 1);
        assert(steps[k - 1] is Ask);
    }
}

/// The ports to announce: of each port the number that was learnt, or its own
/// if none was.
pub fn announced_ports(opened: &Vec<u16>, mapped: &Vec<Option<u16>>) -> (r: Vec<u16>)
    requires
        opened@.len() == mapped@.len(),
    ensures
        r@ == Seq::new(
            opened@.len(),
            |i: int|
                match mapped@[i] {
                    Some(p) => p,
                    None => opened@[i],
                },
        ),
{
    let mut r: Vec<u16> = Vec::new();
    for i in 0..opened.len()
        invariant
            opened@.len() == mapped@.len(),
            r@ == Seq::new(
                i as nat,
                |j: int|
                    match mapped@[j] {
                        Some(p) => p,
                        None => opened@[j],
                    },
            ),
    {
        let p: u16 = match mapped[i] {
            Some(p) => p,
            None => opened[i],
        };
        r.push(p);
    }
    r
}

/// A reply in which the server has written the masked port of the sender gives
/// that port.
pub proof fn law_mapped_port_is_the_one_that_the_server_saw(
    from: SocketAddr,
    reply: IncomingControlMessage,
)
    requires
        reply.po == from.spec_port() ^ PORT_MASK,
    ensures
        reply.po ^ PORT_MASK == from.spec_port(),
{
    law_port_mask_undoes_itself(from.spec_port());
}

} // verus!
