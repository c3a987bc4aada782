//! What the server counts.
use vstd::prelude::*;

verus! {

/// The server's counters.
#[derive(Clone, Copy, Debug, PartialEq, Eq, Structural)]
pub struct ServerMetrics {
    /// Packets received.
    pub pkt_rcv: u64,
    /// Packets whose handling failed.
    pub han_err: u64,
    /// Failed attempts to receive.
    pub rcv_err: u64,
    /// Empty packets.
    pub zeropkt: u64,
    /// Requests for these counters.
    pub me_rq: u64,
    /// Control messages without a name.
    pub ping: u64,
    /// Control messages with a name.
    pub named: u64,
    /// Names that were not known.
    pub newnm: u64,
    /// Messages passed on.
    pub sent: u64,
    /// Messages that could not be passed on.
    pub snderr: u64,
    /// Control messages with a name that nobody else had announced.
    pub lone: u64,
}

/// One of the counters.
#[derive(Clone, Copy, Debug, PartialEq, Eq, Structural)]
pub enum Counter {
    PktRcv,
    HanErr,
    RcvErr,
    ZeroPkt,
    MeRq,
    Ping,
    Named,
    NewNm,
    Sent,
    SndErr,
    Lone,
}

impl ServerMetrics {
    /// The value of one counter.
    pub open spec fn of(self, c: Counter) -> u64 {
        match c {
            Counter::PktRcv => self.pkt_rcv,
            Counter::HanErr => self.han_err,
            Counter::RcvErr => self.rcv_err,
            Counter::ZeroPkt => self.zeropkt,
            Counter::MeRq => self.me_rq,
            Counter::Ping => self.ping,
            Counter::Named => self.named,
            Counter::NewNm => self.newnm,
            Counter::Sent => self.sent,
            Counter::SndErr => self.snderr,
            Counter::Lone => self.lone,
        }
    }

    /// The counters with one of them one higher.
    pub open spec fn plus(self, c: Counter) -> ServerMetrics {
        let n = (self.of(c) + 1) as u64;
        match c {
            Counter::PktRcv => (ServerMetrics { pkt_rcv: n, ..self }),
            Counter::HanErr => (ServerMetrics { han_err: n, ..self }),
            Counter::RcvErr => (ServerMetrics { rcv_err: n, ..self }),
            Counter::ZeroPkt => (ServerMetrics { zeropkt: n, ..self }),
            Counter::MeRq => (ServerMetrics { me_rq: n, ..self }),
            Counter::Ping => (ServerMetrics { ping: n, ..self }),
            Counter::Named => (ServerMetrics { named: n, ..self }),
            Counter::NewNm => (ServerMetrics { newnm: n, ..self }),
            Counter::Sent => (ServerMetrics { sent: n, ..self }),
            Counter::SndErr => (ServerMetrics { snderr: n, ..self }),
            Counter::Lone => (ServerMetrics { lone: n, ..self }),
        }
    }

    /// Whether a counter can still go up.
    pub open spec fn spec_room_for(self, c: Counter) -> bool {
        self.of(c) < u64::MAX
    }

    /// Whether a counter can still go up.
    pub fn room_for(&self, c: Counter) -> (r: bool)
        ensures
            r == self.spec_room_for(c),
            c is PktRcv ==> r == (self.pkt_rcv < u64::MAX),
            c is HanErr ==> r == (self.han_err < u64::MAX),
            c is RcvErr ==> r == (self.rcv_err < u64::MAX),
            c is ZeroPkt ==> r == (self.zeropkt < u64::MAX),
            c is MeRq ==> r == (self.me_rq < u64::MAX),
            c is Ping ==> r == (self.ping < u64::MAX),
            c is Named ==> r == (self.named < u64::MAX),
            c is NewNm ==> r == (self.newnm < u64::MAX),
            c is Sent ==> r == (self.sent < u64::MAX),
            c is SndErr ==> r == (self.snderr < u64::MAX),
            c is Lone ==> r == (self.lone < u64::MAX),
    {
        let n: u64 = match c {
            Counter::PktRcv => self.pkt_rcv,
            Counter::HanErr => self.han_err,
            Counter::RcvErr => self.rcv_err,
            Counter::ZeroPkt => self.zeropkt,
            Counter::MeRq => self.me_rq,
            Counter::Ping => self.ping,
            Counter::Named => self.named,
            Counter::NewNm => self.newnm,
            Counter::Sent => self.sent,
            Counter::SndErr => self.snderr,
            Counter::Lone => self.lone,
        };
        n < u64::MAX
    }

    /// Counts one more of something.
    pub fn count(&mut self, c: Counter)
        requires
            old(self).spec_room_for(c),
        ensures
            *final(self) == old(self).plus(c),
            final(self).pkt_rcv == old(self).pkt_rcv + if c is PktRcv { 1int } else { 0 },
            final(self).han_err == old(self).han_err + if c is HanErr { 1int } else { 0 },
            final(self).rcv_err == old(self).rcv_err + if c is RcvErr { 1int } else { 0 },
            final(self).zeropkt == old(self).zeropkt + if c is ZeroPkt { 1int } else { 0 },
            final(self).me_rq == old(self).me_rq + if c is MeRq { 1int } else { 0 },
            final(self).ping == old(self).ping + if c is Ping { 1int } else { 0 },
            final(self).named == old(self).named + if c is Named { 1int } else { 0 },
            final(self).newnm == old(self).newnm + if c is NewNm { 1int } else { 0 },
            final(self).sent == old(self).sent + if c is Sent { 1int } else { 0 },
            final(self).snderr == old(self).snderr + if c is SndErr { 1int } else { 0 },
            final(self).lone == old(self).lone + if c is Lone { 1int } else { 0 },
    {
        match c {
            Counter::PktRcv => { self.pkt_rcv = self.pkt_rcv + 1; },
            Counter::HanErr => { self.han_err = self.han_err + 1; },
            Counter::RcvErr => { self.rcv_err = self.rcv_err + 1; },
            Counter::ZeroPkt => { self.zeropkt = self.zeropkt + 1; },
            Counter::MeRq => { self.me_rq = self.me_rq + 1; },
            Counter::Ping => { self.ping = self.ping + 1; },
            Counter::Named => { self.named = self.named + 1; },
            Counter::NewNm => { self.newnm = self.newnm + 1; },
            Counter::Sent => { self.sent = self.sent + 1; },
            Counter::SndErr => { self.snderr = self.snderr + 1; },
            Counter::Lone => { self.lone = self.lone + 1; },
        }
    }

    /// All counters at zero.
    pub open spec fn zero() -> ServerMetrics {
        ServerMetrics {
            pkt_rcv: 0,
            han_err: 0,
            rcv_err: 0,
            zeropkt: 0,
            me_rq: 0,
            ping: 0,
            named: 0,
            newnm: 0,
            sent: 0,
            snderr: 0,
            lone: 0,
        }
    }

    /// Packets that were sorted into one of the four kinds.
    pub open spec fn sorted_packets(self) -> int {
        self.zeropkt + self.me_rq + self.ping + self.named
    }
}

impl Default for ServerMetrics {
    /// All counters at zero.
    fn default() -> (r: Self)
        ensures
            r == ServerMetrics::zero(),
            r.pkt_rcv == 0 && r.han_err == 0 && r.rcv_err == 0 && r.zeropkt == 0 && r.me_rq == 0,
            r.ping == 0 && r.named == 0 && r.newnm == 0 && r.sent == 0 && r.snderr == 0,
            r.lone == 0,
    {
        ServerMetrics {
            pkt_rcv: 0,
            han_err: 0,
            rcv_err: 0,
            zeropkt: 0,
            me_rq: 0,
            ping: 0,
            named: 0,
            newnm: 0,
            sent: 0,
            snderr: 0,
            lone: 0,
        }
    }
}

/// Counting a thing raises the field that is named after it, and no other.
pub proof fn law_counting_raises_the_field(m: ServerMetrics, c: Counter)
    requires
        m.spec_room_for(c),
    ensures
        ({
            let r = m.plus(c);
            &&& c is PktRcv ==> r.pkt_rcv == m.pkt_rcv + 1 && r == (ServerMetrics {
                pkt_rcv: r.pkt_rcv,
                ..m
            })
            &&& c is HanErr ==> r.han_err == m.han_err + 1 && r == (ServerMetrics {
                han_err: r.han_err,
                ..m
            })
            &&& c is RcvErr ==> r.rcv_err == m.rcv_err + 1 && r == (ServerMetrics {
                rcv_err: r.rcv_err,
                ..m
            })
            &&& c is ZeroPkt ==> r.zeropkt == m.zeropkt + 1 && r == (ServerMetrics {
                zeropkt: r.zeropkt,
                ..m
            })
            &&& c is MeRq ==> r.me_rq == m.me_rq + 1 && r == (ServerMetrics { me_rq: r.me_rq, ..m })
            &&& c is Ping ==> r.ping == m.ping + 1 && r == (ServerMetrics { ping: r.ping, ..m })
            &&& c is Named ==> r.named == m.named + 1 && r == (ServerMetrics { named: r.named, ..m })
            &&& c is NewNm ==> r.newnm == m.newnm + 1 && r == (ServerMetrics { newnm: r.newnm, ..m })
            &&& c is Sent ==> r.sent == m.sent + 1 && r == (ServerMetrics { sent: r.sent, ..m })
            &&& c is SndErr ==> r.snderr == m.snderr + 1 && r == (ServerMetrics {
                snderr: r.snderr,
                ..m
            })
            &&& c is Lone ==> r.lone == m.lone + 1 && r == (ServerMetrics { lone: r.lone, ..m })
        }),
{
}

/// Counting one thing raises its counter by one and leaves the others.
pub proof fn law_counting_changes_one_counter(m: ServerMetrics, c: Counter, d: Counter)
    requires
        m.spec_room_for(c),
    ensures
        m.plus(c).of(d) == m.of(d) + if c == d {
            1int
        } else {
            0int
        },
{
}

} // verus!
