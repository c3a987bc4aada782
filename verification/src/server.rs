//! The rendezvous server: sorts packets, keeps the registry of names, and says
//! to whom a control message is passed on.
use crate::addr::{
    addr_of_key, is_peer_key, law_address_determines_key, law_key_determines_address,
    law_keys_tell_addresses_apart, spec_addr_of_key, PeerKey, SocketAddr,
};
use crate::cache::{
    in_order_within, lemma_looked_up, lemma_taken_out, lemma_walked_over, looked_up, other_peer,
    peer_entries, peer_limit, peers_contains_key, peers_insert, peers_iter, peers_new, picks,
    registry_entries, registry_insert, registry_limit, registry_new, registry_remove, taken_out,
    walked_over, with_name, with_peer, without_name, NameEntry, Peers, Registry, ADDR_EXPIRE_SECONDS, MAX_ADDRS,
    MAX_NAMES, NAME_EXPIRE_SECONDS,
};
use crate::metrics::{Counter, ServerMetrics};
use crate::registry::{
    law_announced_peer_is_youngest, law_announcement_keeps_peers_wf, law_filed_entry_is_youngest,
    law_filing_keeps_registry_wf, law_other_peers_stay, law_removal_keeps_registry_wf,
    lemma_dropping_oldest_keeps_peers_wf, lemma_found_is_proper,
    lemma_in_order_within_is_transitive, lemma_peers_of, lemma_picks_len, lemma_without_peer, may_find, peers_of, peers_wf, registry_wf,
};
use vstd::prelude::*;

verus! {

/// What a packet asks of the server.
#[derive(Clone, Copy, Debug, PartialEq, Eq, Structural)]
pub enum PacketKind {
    /// Nothing.
    Empty,
    /// The server's counters.
    MetricsRequest,
    /// That a control message be decoded and passed on.
    Control,
}

/// The kind of a packet: a single question mark asks for the counters, and
/// whatever else is not empty is a control message.
pub open spec fn packet_kind(b: Seq<u8>) -> PacketKind {
    if b.len() == 0 {
        PacketKind::Empty
    } else if b == seq![63u8] {
        PacketKind::MetricsRequest
    } else {
        PacketKind::Control
    }
}

/// The kind of a packet.
pub fn classify(b: &[u8]) -> (r: PacketKind)
    ensures
        r == packet_kind(b@),
        r is Empty <==> b@.len() == 0,
        r is MetricsRequest <==> b@.len() == 1 && b@[0] == 63,
{
    if b.len() == 0 {
        PacketKind::Empty
    } else if b.len() == 1 && b[0] == 63u8 {
        assert(b@ =~= seq![63u8]);
        PacketKind::MetricsRequest
    } else {
        PacketKind::Control
    }
}

/// What a packet asks for: nothing if it has no byte, the counters if it is the
/// one byte that is a question mark, and otherwise that it be passed on.
pub proof fn law_kinds_of_packets(b: Seq<u8>)
    ensures
        packet_kind(b) is Empty <==> b.len() == 0,
        packet_kind(b) is MetricsRequest <==> b.len() == 1 && b[0] == 63,
        packet_kind(b) is Control <==> b.len() > 1 || (b.len() == 1 && b[0] != 63),
{
    if b.len() == 1 && b[0] == 63 {
        assert(b =~= seq![63u8]);
    }
}

/// The counters once a packet of some kind has come in.
pub open spec fn after_packet(m: ServerMetrics, kind: PacketKind) -> ServerMetrics {
    match kind {
        PacketKind::Empty => m.plus(Counter::PktRcv).plus(Counter::ZeroPkt),
        PacketKind::MetricsRequest => m.plus(Counter::PktRcv).plus(Counter::MeRq),
        PacketKind::Control => m.plus(Counter::PktRcv),
    }
}

/// Whether a packet of some kind can be counted.
pub open spec fn ready_for_kind(m: ServerMetrics, kind: PacketKind) -> bool {
    &&& m.spec_room_for(Counter::PktRcv)
    &&& kind is Empty ==> m.spec_room_for(Counter::ZeroPkt)
    &&& kind is MetricsRequest ==> m.spec_room_for(Counter::MeRq)
}

/// Whether a control message that bears `name` can be counted, be the name new
/// or not.
pub open spec fn ready_for(m: ServerMetrics, name: Seq<char>) -> bool {
    if name.len() == 0 {
        m.spec_room_for(Counter::Ping)
    } else {
        m.spec_room_for(Counter::Named) && m.spec_room_for(Counter::NewNm)
    }
}

/// What a server knows and has counted.
pub struct ServerView {
    /// What the registry holds, from the oldest name to the youngest.
    pub entries: Seq<NameEntry>,
    /// The counters.
    pub metrics: ServerMetrics,
}

/// Whether a packet of some kind leads from one state to another.
pub open spec fn takes_packet(before: ServerView, after: ServerView, kind: PacketKind) -> bool {
    &&& ready_for_kind(before.metrics, kind)
    &&& after.metrics == after_packet(before.metrics, kind)
    &&& after.entries == before.entries
}

/// Whether counting one more of something leads from one state to another.
pub open spec fn counts(before: ServerView, after: ServerView, c: Counter) -> bool {
    &&& before.metrics.spec_room_for(c)
    &&& after.metrics == before.metrics.plus(c)
    &&& after.entries == before.entries
}

/// Whether an announcement under a name leads from one state to another, with
/// what is found under the name and whether it is new.
pub open spec fn takes_name(
    before: ServerView,
    after: ServerView,
    name: Seq<char>,
    found: Seq<PeerKey>,
    is_new: bool,
) -> bool {
    &&& name.len() > 0
    &&& ready_for(before.metrics, name)
    &&& may_find(before.entries, name, found, is_new)
    &&& after.entries == without_name(before.entries, name)
    &&& after.metrics == if is_new {
        before.metrics.plus(Counter::Named).plus(Counter::NewNm)
    } else {
        before.metrics.plus(Counter::Named)
    }
}

/// Whether those told of an announcement can be `targets`: all others that
/// were found and are alive, which the clock decides.
pub open spec fn may_tell(
    found: Seq<PeerKey>,
    from: SocketAddr,
    targets: Seq<SocketAddr>,
) -> bool {
    exists|live: Seq<PeerKey>|
        in_order_within(live, found) && targets == #[trigger] targets_among(live, from)
}

/// Whether the end of an announcement, of which `told` others were told, leads
/// from one state to another.
pub open spec fn files_name(
    before: ServerView,
    after: ServerView,
    name: Seq<char>,
    found: Seq<PeerKey>,
    from: SocketAddr,
    told: nat,
) -> bool {
    &&& told == 0 ==> before.metrics.spec_room_for(Counter::Lone)
    &&& after.entries == filed(before.entries, name, found, from)
    &&& after.metrics == if told == 0 {
        before.metrics.plus(Counter::Lone)
    } else {
        before.metrics
    }
}

/// To whom a message from `from` is passed on, of the addresses that are
/// alive: to all but the sender, from the oldest to the youngest.
pub open spec fn targets_among(live: Seq<PeerKey>, from: SocketAddr) -> Seq<SocketAddr> {
    live.filter(other_peer(from.spec_key())).map_values(|k: PeerKey| spec_addr_of_key(k))
}

/// A control message that is being passed on.
pub struct Delivery {
    /// The name under which the sender announced itself.
    pub name: String,
    /// The sender.
    pub from: SocketAddr,
    /// Whether the name was not known.
    pub is_new: bool,
    /// The addresses under that name.
    pub peers: Peers,
    /// Those of them that were alive when the delivery began, from the oldest
    /// to the youngest.
    pub candidates: Vec<PeerKey>,
    /// How many of the candidates were considered already.
    pub next: usize,
    /// Those to whom the message was passed on so far.
    pub told: Vec<SocketAddr>,
}

impl Delivery {
    /// The addresses under the name, from the oldest to the youngest.
    pub open spec fn entries(self) -> Seq<PeerKey> {
        peer_entries(self.peers)
    }

    /// Whether the delivery is one that the server can file, and those that
    /// were told are some of the candidates considered so far.
    pub open spec fn wf(self) -> bool {
        &&& self.name@.len() > 0
        &&& peers_wf(peer_entries(self.peers), peer_limit(self.peers))
        &&& in_order_within(self.candidates@, self.entries())
        &&& self.next <= self.candidates@.len()
        &&& may_tell(self.candidates@.take(self.next as int), self.from, self.told@)
    }

    /// Whether all candidates were considered.
    pub open spec fn is_over(self) -> bool {
        self.next == self.candidates@.len()
    }

    /// The delivery once the next candidate was considered.
    pub open spec fn considered(self, after: Delivery, alive: bool) -> bool {
        let k = self.candidates@[self.next as int];
        &&& after == (Delivery { next: after.next, told: after.told, ..self })
        &&& after.next == self.next + 1
        &&& after.told@ == if alive && k != self.from.spec_key() {
            self.told@.push(spec_addr_of_key(k))
        } else {
            self.told@
        }
    }

    /// Considers the next candidate, given whether it is alive: the message is
    /// passed on to it if it is, and is not the sender.
    pub fn consider(&mut self, alive: bool) -> (r: Option<SocketAddr>)
        requires
            old(self).wf(),
            !old(self).is_over(),
        ensures
            final(self).wf(),
            old(self).considered(*final(self), alive),
            r == if alive && old(self).candidates@[old(self).next as int]
                != old(self).from.spec_key() {
                Some(spec_addr_of_key(old(self).candidates@[old(self).next as int]))
            } else {
                None
            },
    {
        let own = self.from.key();
        let k = self.candidates[self.next];
        let ghost before = self.candidates@.take(self.next as int);
        let ghost after = self.candidates@.take(self.next + 1);
        let ghost told = self.told@;
        proof {
            lemma_considering(before, k, self.from, told);
            assert(before.push(k) =~= after);
            assert(self.next < self.candidates.len());
        }
        self.next = self.next + 1;
        if alive && (k.0 != own.0 || k.1 != own.1 || k.2 != own.2 || k.3 != own.3 || k.4 != own.4) {
            let t = addr_of_key(k);
            self.told.push(t);
            Some(t)
        } else {
            None
        }
    }

    /// The next address that the message is to be sent to: of the candidates
    /// that were not considered yet, the first that is still alive and is not
    /// the sender. Whether a candidate is still alive is found out when its
    /// turn comes, and the clock decides it.
    pub fn next_target(&mut self) -> (r: Option<SocketAddr>)
        requires
            old(self).wf(),
        ensures
            final(self).wf(),
            *final(self) == (Delivery {
                next: final(self).next,
                told: final(self).told,
                ..*old(self)
            }),
            old(self).next <= final(self).next,
            match r {
                Some(t) => {
                    &&& old(self).next < final(self).next
                    &&& old(self).candidates@[final(self).next - 1] == t.spec_key()
                    &&& t != old(self).from
                    &&& final(self).told@ == old(self).told@.push(t)
                },
                None => final(self).is_over() && final(self).told@ == old(self).told@,
            },
            hands_out(*old(self), *final(self), r),
    {
        while self.next < self.candidates.len()
            invariant
                self.wf(),
                *self == (Delivery { next: self.next, told: self.told, ..*old(self) }),
                old(self).next <= self.next,
                self.told@ == old(self).told@,
                forall|c: int|
                    old(self).next <= c < self.next ==> #[trigger] self.candidates@[c]
                        == self.from.spec_key() || looked_up(self.peers, self.candidates@[c], false),
            decreases self.candidates@.len() - self.next,
        {
            let k = self.candidates[self.next];
            let alive = peers_contains_key(&self.peers, &k);
            proof {
                let at = choose|at: Seq<int>| picks(self.candidates@, self.entries(), at);
                assert(self.entries()[at[self.next as int]] == k);
                lemma_looked_up(self.peers, k, alive);
                law_address_determines_key(k);
                law_key_determines_address(self.from);
            }
            let r = self.consider(alive);
            if r.is_some() {
                return r;
            }
        }
        None
    }
}

/// Whether asking a delivery for the next address leads from one delivery to
/// another, with what came out. A candidate is passed over only if it is the
/// sender, or if it was looked up when its turn came and was gone; and one
/// that comes out was looked up and was there.
pub open spec fn hands_out(before: Delivery, after: Delivery, r: Option<SocketAddr>) -> bool {
    &&& after.candidates == before.candidates
    &&& after.from == before.from
    &&& after.peers == before.peers
    &&& before.next <= after.next <= before.candidates@.len()
    &&& forall|c: int|
        before.next <= c < after.next && (r is Some ==> c < after.next - 1) ==> (
        #[trigger] before.candidates@[c] == before.from.spec_key() || looked_up(
            before.peers,
            before.candidates@[c],
            false,
        ))
    &&& match r {
        Some(t) => {
            &&& before.next < after.next
            &&& before.candidates@[after.next - 1] == t.spec_key()
            &&& looked_up(before.peers, t.spec_key(), true)
            &&& t != before.from
            &&& after.told@ == before.told@.push(t)
        },
        None => after.next == before.candidates@.len() && after.told@ == before.told@,
    }
}

/// Whether a delivery is asked for address after address, from its beginning
/// until there is none left, with what came out each time.
pub open spec fn handed_out(ds: Seq<Delivery>, rs: Seq<Option<SocketAddr>>) -> bool {
    &&& rs.len() > 0
    &&& ds.len() == rs.len() + 1
    &&& ds[0].next == 0
    &&& ds[0].told@.len() == 0
    &&& forall|i: int| 0 <= i < rs.len() ==> hands_out(ds[i], ds[i + 1], #[trigger] rs[i])
    &&& forall|i: int| 0 <= i < rs.len() - 1 ==> (#[trigger] rs[i]) is Some
    &&& rs.last() is None
}

/// What came out of a delivery after `i` questions: each candidate so far came
/// out, is the sender, or was gone when its turn came; and what came out was
/// told.
proof fn lemma_handed_out_so_far(ds: Seq<Delivery>, rs: Seq<Option<SocketAddr>>, i: int)
    requires
        handed_out(ds, rs),
        0 <= i <= rs.len(),
    ensures
        ds[i].candidates == ds[0].candidates,
        ds[i].from == ds[0].from,
        ds[i].peers == ds[0].peers,
        0 <= ds[i].next <= ds[0].candidates@.len(),
        ds[i].told@.len() == if i == rs.len() {
            i - 1
        } else {
            i
        },
        forall|k: int| 0 <= k < ds[i].told@.len() ==> rs[k] == Some(#[trigger] ds[i].told@[k]),
        forall|c: int|
            0 <= c < ds[i].next ==> {
                ||| #[trigger] ds[0].candidates@[c] == ds[0].from.spec_key()
                ||| looked_up(ds[0].peers, ds[0].candidates@[c], false)
                ||| exists|k: int|
                    0 <= k < ds[i].told@.len() && (#[trigger] ds[i].told@[k]).spec_key()
                        == ds[0].candidates@[c]
            },
        forall|k: int|
            0 <= k < ds[i].told@.len() ==> {
                &&& #[trigger] ds[i].told@[k] != ds[0].from
                &&& ds[0].candidates@.contains(ds[i].told@[k].spec_key())
                &&& looked_up(ds[0].peers, ds[i].told@[k].spec_key(), true)
            },
    decreases i,
{
    if i > 0 {
        lemma_handed_out_so_far(ds, rs, i - 1);
        let a = ds[i - 1];
        let b = ds[i];
        assert(hands_out(a, ds[i - 1 + 1], rs[i - 1]));
        if i < rs.len() {
            assert(rs[i - 1] is Some);
            assert(b.told@[b.told@.len() - 1] == rs[i - 1]->0);
        }
        assert forall|k: int| 0 <= k < a.told@.len() implies #[trigger] b.told@[k]
            == a.told@[k] by {}
        assert forall|c: int| 0 <= c < b.next implies {
            ||| #[trigger] ds[0].candidates@[c] == ds[0].from.spec_key()
            ||| looked_up(ds[0].peers, ds[0].candidates@[c], false)
            ||| exists|k: int|
                0 <= k < b.told@.len() && (#[trigger] b.told@[k]).spec_key()
                    == ds[0].candidates@[c]
        } by {
            if c < a.next {
                if exists|k: int|
                    0 <= k < a.told@.len() && (#[trigger] a.told@[k]).spec_key()
                        == ds[0].candidates@[c] {
                    let k = choose|k: int|
                        0 <= k < a.told@.len() && (#[trigger] a.told@[k]).spec_key()
                            == ds[0].candidates@[c];
                    assert(b.told@[k] == a.told@[k]);
                }
            } else if rs[i - 1] is Some && c == b.next - 1 {
                assert(b.told@[b.told@.len() - 1].spec_key() == ds[0].candidates@[c]);
            } else {
                assert(a.candidates@[c] == a.from.spec_key() || looked_up(
                    a.peers,
                    a.candidates@[c],
                    false,
                ));
            }
        }
    }
}

/// A message is passed on to each candidate but the sender, unless the
/// candidate was looked up when its turn came and was gone. Nobody else gets
/// it, and the sender never does.
pub proof fn law_every_candidate_is_told_unless_gone(
    ds: Seq<Delivery>,
    rs: Seq<Option<SocketAddr>>,
    a: SocketAddr,
)
    requires
        handed_out(ds, rs),
    ensures
        a != ds[0].from && ds[0].candidates@.contains(a.spec_key()) && !looked_up(
            ds[0].peers,
            a.spec_key(),
            false,
        ) ==> ds.last().told@.contains(a),
        ds.last().told@.contains(a) ==> a != ds[0].from && ds[0].candidates@.contains(
            a.spec_key(),
        ) && looked_up(ds[0].peers, a.spec_key(), true),
        ds.last().told@.contains(a) <==> exists|i: int|
            0 <= i < rs.len() && #[trigger] rs[i] == Some(a),
{
    let last = ds.last();
    lemma_handed_out_so_far(ds, rs, rs.len() as int);
    assert(hands_out(ds[rs.len() - 1], ds[rs.len() - 1 + 1], rs[rs.len() - 1]));
    law_keys_tell_addresses_apart(a, ds[0].from);
    if ds[0].candidates@.contains(a.spec_key()) && a != ds[0].from && !looked_up(
        ds[0].peers,
        a.spec_key(),
        false,
    ) {
        let c = choose|c: int|
            0 <= c < ds[0].candidates@.len() && ds[0].candidates@[c] == a.spec_key();
        assert(ds[0].candidates@[c] == a.spec_key());
        let k = choose|k: int|
            0 <= k < last.told@.len() && (#[trigger] last.told@[k]).spec_key()
                == ds[0].candidates@[c];
        law_keys_tell_addresses_apart(a, last.told@[k]);
    }
    if last.told@.contains(a) {
        let k = choose|k: int| 0 <= k < last.told@.len() && last.told@[k] == a;
        assert(rs[k] == Some(a));
    }
    if exists|i: int| 0 <= i < rs.len() && #[trigger] rs[i] == Some(a) {
        let i = choose|i: int| 0 <= i < rs.len() && #[trigger] rs[i] == Some(a);
        assert(i < last.told@.len());
        assert(rs[i] == Some(last.told@[i]));
    }
}

/// While no lookup finds a candidate gone, a message is passed on to exactly
/// the candidates, in their order, the sender left out.
pub proof fn law_all_candidates_are_told_while_none_is_gone(
    ds: Seq<Delivery>,
    rs: Seq<Option<SocketAddr>>,
)
    requires
        handed_out(ds, rs),
        forall|c: int|
            0 <= c < ds[0].candidates@.len() ==> is_peer_key(#[trigger] ds[0].candidates@[c])
                && !looked_up(ds[0].peers, ds[0].candidates@[c], false),
    ensures
        ds.last().told@ == targets_among(ds[0].candidates@, ds[0].from),
{
    lemma_told_in_order_while_none_is_gone(ds, rs, rs.len() as int);
    lemma_handed_out_so_far(ds, rs, rs.len() - 1);
    assert(hands_out(ds[rs.len() - 1], ds[rs.len() - 1 + 1], rs[rs.len() - 1]));
    let all = ds[0].candidates@;
    assert(all.take(all.len() as int) =~= all);
}

/// While no lookup finds a candidate gone, those told so far are the
/// candidates considered so far, the sender left out.
proof fn lemma_told_in_order_while_none_is_gone(
    ds: Seq<Delivery>,
    rs: Seq<Option<SocketAddr>>,
    i: int,
)
    requires
        handed_out(ds, rs),
        forall|c: int|
            0 <= c < ds[0].candidates@.len() ==> is_peer_key(#[trigger] ds[0].candidates@[c])
                && !looked_up(ds[0].peers, ds[0].candidates@[c], false),
        0 <= i <= rs.len(),
    ensures
        ds[i].told@ == targets_among(ds[0].candidates@.take(ds[i].next as int), ds[0].from),
    decreases i,
{
    reveal(Seq::filter);
    let all = ds[0].candidates@;
    let own = ds[0].from.spec_key();
    if i == 0 {
        assert(targets_among(all.take(0), ds[0].from) =~= Seq::<SocketAddr>::empty());
        assert(ds[0].told@ =~= Seq::<SocketAddr>::empty());
    } else {
        lemma_told_in_order_while_none_is_gone(ds, rs, i - 1);
        lemma_handed_out_so_far(ds, rs, i - 1);
        let a = ds[i - 1];
        let b = ds[i];
        assert(hands_out(a, ds[i - 1 + 1], rs[i - 1]));
        let stop = if rs[i - 1] is Some {
            b.next - 1
        } else {
            b.next as int
        };
        assert forall|c: int| a.next <= c < stop implies #[trigger] all[c] == own by {
            assert(a.candidates@[c] == a.from.spec_key() || looked_up(
                a.peers,
                a.candidates@[c],
                false,
            ));
        }
        lemma_own_key_adds_nobody(all, ds[0].from, a.next as int, stop);
        if rs[i - 1] is Some {
            let t = rs[i - 1]->0;
            law_key_determines_address(t);
            law_keys_tell_addresses_apart(t, ds[0].from);
            assert(all.take(stop + 1).drop_last() =~= all.take(stop));
            assert(all.take(stop + 1).last() == t.spec_key());
            assert(targets_among(all.take(stop + 1), ds[0].from) =~= targets_among(
                all.take(stop),
                ds[0].from,
            ).push(t));
        }
    }
}

/// The sender's own key adds nobody to those that a message is passed on to.
proof fn lemma_own_key_adds_nobody(all: Seq<PeerKey>, from: SocketAddr, low: int, high: int)
    requires
        0 <= low <= high <= all.len(),
        forall|c: int| low <= c < high ==> #[trigger] all[c] == from.spec_key(),
    ensures
        targets_among(all.take(low), from) == targets_among(all.take(high), from),
    decreases high - low,
{
    reveal(Seq::filter);
    if low < high {
        lemma_own_key_adds_nobody(all, from, low, high - 1);
        assert(all.take(high).drop_last() =~= all.take(high - 1));
        assert(all.take(high).last() == all[high - 1]);
    }
}

/// What considering one more candidate does to those that can have been told.
proof fn lemma_considering(
    before: Seq<PeerKey>,
    k: PeerKey,
    from: SocketAddr,
    told: Seq<SocketAddr>,
)
    requires
        may_tell(before, from, told),
    ensures
        may_tell(before.push(k), from, told),
        k != from.spec_key() ==> may_tell(before.push(k), from, told.push(spec_addr_of_key(k))),
{
    reveal(Seq::filter);
    let live = choose|live: Seq<PeerKey>|
        in_order_within(live, before) && told == #[trigger] targets_among(live, from);
    let at = choose|at: Seq<int>| picks(live, before, at);
    assert(picks(live, before.push(k), at));
    assert(picks(live.push(k), before.push(k), at.push(before.len() as int)));
    assert(live.push(k).drop_last() =~= live);
    if k != from.spec_key() {
        assert(targets_among(live.push(k), from) =~= told.push(spec_addr_of_key(k)));
    }
}

/// Those that were told are some of the addresses under the name, in their
/// order, none of them twice and none of them the sender.
pub proof fn law_delivery_tells_others_once(d: Delivery)
    requires
        d.wf(),
    ensures
        may_tell(d.entries(), d.from, d.told@),
        d.told@.no_duplicates(),
        d.told@.len() <= MAX_ADDRS,
        forall|t: SocketAddr| #[trigger]
            d.told@.contains(t) ==> t != d.from && d.entries().contains(t.spec_key()),
{
    let seen = d.candidates@.take(d.next as int);
    let live = choose|live: Seq<PeerKey>|
        in_order_within(live, seen) && d.told@ == #[trigger] targets_among(live, d.from);
    assert(picks(seen, d.candidates@, Seq::new(seen.len(), |i: int| i)));
    lemma_in_order_within_is_transitive(live, seen, d.candidates@);
    lemma_in_order_within_is_transitive(live, d.candidates@, d.entries());
    law_message_goes_to_each_once(live, d.entries(), d.from);
    let at = choose|at: Seq<int>| picks(live, d.entries(), at);
    assert forall|i: int| 0 <= i < live.len() implies is_peer_key(#[trigger] live[i])
        && d.entries().contains(live[i]) by {
        assert(d.entries()[at[i]] == live[i]);
    }
    assert forall|t: SocketAddr| #[trigger] d.told@.contains(t) implies t != d.from
        && d.entries().contains(t.spec_key()) by {
        law_message_goes_to_all_others(live, d.from, t);
        let i = choose|i: int| 0 <= i < live.len() && live[i] == t.spec_key();
        assert(d.entries().contains(live[i]));
    }
}

/// What becomes of a control message.
pub enum Announcement {
    /// It has no name: it goes back to its sender, which learns from it under
    /// which address it is seen.
    Ping,
    /// It has a name, and is passed on.
    Named(Delivery),
}

/// The state of the server.
pub struct Server {
    /// The names, each with its addresses.
    pub registry: Registry,
    /// The counters.
    pub metrics: ServerMetrics,
}

impl View for Server {
    type V = ServerView;

    open spec fn view(&self) -> ServerView {
        ServerView { entries: registry_entries(self.registry), metrics: self.metrics }
    }
}

impl Server {
    /// What the registry holds, from the oldest name to the youngest.
    pub open spec fn entries(self) -> Seq<NameEntry> {
        registry_entries(self.registry)
    }

    /// Whether the registry is proper.
    pub open spec fn wf(self) -> bool {
        registry_wf(registry_entries(self.registry), registry_limit(self.registry))
    }

    /// A server that knows no name and has counted nothing.
    pub fn new() -> (r: Server)
        ensures
            r.wf(),
            r.entries() == Seq::<NameEntry>::empty(),
            r.metrics == ServerMetrics::zero(),
    {
        Server { registry: registry_new(MAX_NAMES), metrics: ServerMetrics::default() }
    }

    /// Whether a packet can be counted.
    pub fn ready_for_packet(&self, b: &[u8]) -> (r: bool)
        ensures
            r == ready_for_kind(self.metrics, packet_kind(b@)),
            r <==> {
                &&& self.metrics.pkt_rcv < u64::MAX
                &&& b@.len() == 0 ==> self.metrics.zeropkt < u64::MAX
                &&& b@.len() == 1 && b@[0] == 63 ==> self.metrics.me_rq < u64::MAX
            },
    {
        self.metrics.room_for(Counter::PktRcv) && match classify(b) {
            PacketKind::Empty => self.metrics.room_for(Counter::ZeroPkt),
            PacketKind::MetricsRequest => self.metrics.room_for(Counter::MeRq),
            PacketKind::Control => true,
        }
    }

    /// Counts a packet and says what it asks for.
    pub fn handle_packet(&mut self, b: &[u8]) -> (r: PacketKind)
        requires
            ready_for_kind(old(self).metrics, packet_kind(b@)),
        ensures
            r == packet_kind(b@),
            r is Empty <==> b@.len() == 0,
            r is MetricsRequest <==> b@.len() == 1 && b@[0] == 63,
            takes_packet(old(self)@, final(self)@, r),
            r is Empty ==> final(self).metrics == (ServerMetrics {
                pkt_rcv: (old(self).metrics.pkt_rcv + 1) as u64,
                zeropkt: (old(self).metrics.zeropkt + 1) as u64,
                ..old(self).metrics
            }),
            r is MetricsRequest ==> final(self).metrics == (ServerMetrics {
                pkt_rcv: (old(self).metrics.pkt_rcv + 1) as u64,
                me_rq: (old(self).metrics.me_rq + 1) as u64,
                ..old(self).metrics
            }),
            r is Control ==> final(self).metrics == (ServerMetrics {
                pkt_rcv: (old(self).metrics.pkt_rcv + 1) as u64,
                ..old(self).metrics
            }),
            final(self).registry == old(self).registry,
    {
        self.metrics.count(Counter::PktRcv);
        let kind = classify(b);
        match kind {
            PacketKind::Empty => self.metrics.count(Counter::ZeroPkt),
            PacketKind::MetricsRequest => self.metrics.count(Counter::MeRq),
            PacketKind::Control => {},
        }
        kind
    }

    /// Counts a packet that could not be decoded, encoded or answered.
    pub fn handler_failed(&mut self)
        requires
            old(self).metrics.spec_room_for(Counter::HanErr),
        ensures
            counts(old(self)@, final(self)@, Counter::HanErr),
            final(self).metrics == (ServerMetrics {
                han_err: (old(self).metrics.han_err + 1) as u64,
                ..old(self).metrics
            }),
            final(self).registry == old(self).registry,
    {
        self.metrics.count(Counter::HanErr);
    }

    /// Counts a failed attempt to receive.
    pub fn receive_failed(&mut self)
        requires
            old(self).metrics.spec_room_for(Counter::RcvErr),
        ensures
            counts(old(self)@, final(self)@, Counter::RcvErr),
            final(self).metrics == (ServerMetrics {
                rcv_err: (old(self).metrics.rcv_err + 1) as u64,
                ..old(self).metrics
            }),
            final(self).registry == old(self).registry,
    {
        self.metrics.count(Counter::RcvErr);
    }

    /// The addresses under a name, given what the registry had for it. A name
    /// for which it had nothing is counted, and starts with no address.
    pub fn open_entry(&mut self, found: Option<Peers>) -> (r: Peers)
        requires
            found is None ==> old(self).metrics.spec_room_for(Counter::NewNm),
        ensures
            final(self).registry == old(self).registry,
            match found {
                Some(p) => r == p && final(self).metrics == old(self).metrics,
                None => {
                    &&& peer_entries(r) == Seq::<PeerKey>::empty()
                    &&& peer_limit(r) == MAX_ADDRS
                    &&& final(self).metrics == old(self).metrics.plus(Counter::NewNm)
                },
            },
    {
        match found {
            Some(p) => p,
            None => {
                self.metrics.count(Counter::NewNm);
                peers_new(MAX_ADDRS)
            },
        }
    }

    /// Whether a control message that bears `name` can be counted, be the name
    /// new or not.
    pub fn ready_for_name(&self, name: &String) -> (r: bool)
        ensures
            r == ready_for(self.metrics, name@),
            name@.len() == 0 ==> (r <==> self.metrics.ping < u64::MAX),
            name@.len() > 0 ==> (r <==> self.metrics.named < u64::MAX && self.metrics.newnm
                < u64::MAX),
    {
        if name.as_str().is_empty() {
            self.metrics.room_for(Counter::Ping)
        } else {
            self.metrics.room_for(Counter::Named) && self.metrics.room_for(Counter::NewNm)
        }
    }

    /// Decides what becomes of a control message from `from` that bears
    /// `name`. A message with a name is passed on to the other addresses under
    /// that name that are alive, which the clock decides. Until the delivery
    /// is concluded, the name is out of the registry.
    pub fn announce(&mut self, name: String, from: SocketAddr) -> (r: Announcement)
        requires
            old(self).wf(),
            ready_for(old(self).metrics, name@),
        ensures
            final(self).wf(),
            r is Ping <==> name@.len() == 0,
            r is Ping ==> counts(old(self)@, final(self)@, Counter::Ping) && final(self).registry
                == old(self).registry,
            r matches Announcement::Named(d) ==> {
                &&& d.wf()
                &&& d.name == name
                &&& d.from == from
                &&& d.next == 0
                &&& d.told@ == Seq::<SocketAddr>::empty()
                &&& takes_name(old(self)@, final(self)@, name@, d.entries(), d.is_new)
                &&& d.is_new ==> d.candidates@.len() == 0
                &&& d.is_new ==> taken_out(old(self).registry, name, None)
                &&& d.is_new ==> d.entries().len() == 0
                &&& forall|c: int|
                    0 <= c < d.candidates@.len() ==> d.entries().contains(
                        #[trigger] d.candidates@[c],
                    )
                &&& !d.is_new ==> exists|p: Peers| #[trigger]
                    walked_over(p, d.candidates) && taken_out(old(self).registry, name, Some(p))
                &&& final(self).metrics == (ServerMetrics {
                    named: (old(self).metrics.named + 1) as u64,
                    newnm: (old(self).metrics.newnm + if d.is_new {
                        1int
                    } else {
                        0
                    }) as u64,
                    ..old(self).metrics
                })
            },
            r is Ping ==> final(self).metrics == (ServerMetrics {
                ping: (old(self).metrics.ping + 1) as u64,
                ..old(self).metrics
            }),
    {
        if name.as_str().is_empty() {
            self.metrics.count(Counter::Ping);
            return Announcement::Ping;
        }
        self.metrics.count(Counter::Named);
        let found = registry_remove(&mut self.registry, &name);
        proof {
            lemma_taken_out(old(self).registry, name, found);
            law_removal_keeps_registry_wf(
                old(self).entries(),
                registry_limit(old(self).registry),
                name@,
            );
        }
        let is_new = found.is_none();
        let ghost found_entries = if found is Some {
            peer_entries(found->0)
        } else {
            Seq::<PeerKey>::empty()
        };
        let mut peers = self.open_entry(found);
        let ghost opened = peers;
        let candidates = peers_iter(&mut peers);
        proof {
            lemma_walked_over(opened, candidates);
        }
        let d = Delivery { name, from, is_new, peers, candidates, next: 0, told: Vec::new() };
        proof {
            let n = choose|n: int|
                0 <= n <= found_entries.len() && peer_entries(peers)
                    == #[trigger] found_entries.skip(n);
            if is_new {
                assert(d.entries() =~= Seq::<PeerKey>::empty());
                let at = choose|at: Seq<int>| picks(d.candidates@, d.entries(), at);
                lemma_picks_len(d.candidates@, d.entries(), at);
            } else {
                let e: NameEntry = choose|e: NameEntry| #[trigger]
                    old(self).entries().contains(e) && e.0 == name@ && e.1.0 == found_entries;
                lemma_peers_of(old(self).entries(), MAX_NAMES as nat, e);
                assert(d.entries() == peers_of(old(self).entries(), name@).skip(n));
            }
            lemma_found_is_proper(
                old(self).entries(),
                MAX_NAMES as nat,
                name@,
                d.entries(),
                is_new,
            );
            let pos = choose|pos: Seq<int>| picks(d.candidates@, d.entries(), pos);
            assert forall|c: int| 0 <= c < d.candidates@.len() implies d.entries().contains(
                #[trigger] d.candidates@[c],
            ) by {
                assert(d.entries()[pos[c]] == d.candidates@[c]);
            }
            let nobody = Seq::<PeerKey>::empty();
            reveal(Seq::filter);
            assert(d.candidates@.take(0) =~= nobody);
            assert(picks(nobody, nobody, Seq::<int>::empty()));
            assert(targets_among(nobody, from) =~= d.told@);
        }
        Announcement::Named(d)
    }

    /// Counts a message that was passed on to one address, or could not be.
    pub fn delivered(&mut self, ok: bool)
        requires
            ok ==> old(self).metrics.spec_room_for(Counter::Sent),
            !ok ==> old(self).metrics.spec_room_for(Counter::SndErr),
        ensures
            counts(
                old(self)@,
                final(self)@,
                if ok {
                    Counter::Sent
                } else {
                    Counter::SndErr
                },
            ),
            ok ==> final(self).metrics == (ServerMetrics {
                sent: (old(self).metrics.sent + 1) as u64,
                ..old(self).metrics
            }),
            !ok ==> final(self).metrics == (ServerMetrics {
                snderr: (old(self).metrics.snderr + 1) as u64,
                ..old(self).metrics
            }),
            final(self).registry == old(self).registry,
    {
        if ok {
            self.metrics.count(Counter::Sent);
        } else {
            self.metrics.count(Counter::SndErr);
        }
    }

    /// Ends a delivery: counts it if there was nobody to tell, adds the sender
    /// to the addresses under its name, and files the name.
    pub fn conclude(&mut self, delivery: Delivery)
        requires
            old(self).wf(),
            delivery.wf(),
            delivery.is_over(),
            delivery.told@.len() == 0 ==> old(self).metrics.spec_room_for(Counter::Lone),
        ensures
            final(self).wf(),
            may_tell(delivery.entries(), delivery.from, delivery.told@),
            delivery.told@.len() == 0 ==> final(self).metrics == (ServerMetrics {
                lone: (old(self).metrics.lone + 1) as u64,
                ..old(self).metrics
            }),
            delivery.told@.len() > 0 ==> final(self).metrics == old(self).metrics,
            final(self).entries().len() > 0,
            final(self).entries().last().0 == delivery.name@,
            final(self).entries().last().1.0.len() > 0,
            final(self).entries().last().1.0.last() == delivery.from.spec_key(),
            files_name(
                old(self)@,
                final(self)@,
                delivery.name@,
                delivery.entries(),
                delivery.from,
                delivery.told@.len(),
            ),
    {
        proof {
            law_delivery_tells_others_once(delivery);
        }
        let Delivery { name, from, is_new: _, mut peers, candidates: _, next: _, told } = delivery;
        if told.len() == 0 {
            self.metrics.count(Counter::Lone);
        }
        proof {
            let s = peer_entries(peers);
            law_announcement_keeps_peers_wf(s, MAX_ADDRS as nat, from.spec_key());
            law_filing_keeps_registry_wf(
                self.entries(),
                MAX_NAMES as nat,
                (name@, (with_peer(s, MAX_ADDRS as nat, from.spec_key()), MAX_ADDRS as nat)),
            );
        }
        proof {
            law_announced_peer_is_youngest(
                peer_entries(peers),
                MAX_ADDRS as nat,
                from.spec_key(),
            );
        }
        peers_insert(&mut peers, from.key(), ADDR_EXPIRE_SECONDS);
        registry_insert(&mut self.registry, name, peers, NAME_EXPIRE_SECONDS);
    }
}

/// The registry once `from` has announced itself under `name`, with `peers`
/// the addresses there were.
pub open spec fn filed(
    s: Seq<NameEntry>,
    name: Seq<char>,
    peers: Seq<PeerKey>,
    from: SocketAddr,
) -> Seq<NameEntry> {
    with_name(
        s,
        MAX_NAMES as nat,
        (name, (with_peer(peers, MAX_ADDRS as nat, from.spec_key()), MAX_ADDRS as nat)),
    )
}

/// A message is passed on to an address exactly if the address is alive and is
/// not the sender's.
pub proof fn law_message_goes_to_all_others(live: Seq<PeerKey>, from: SocketAddr, to: SocketAddr)
    requires
        forall|i: int| 0 <= i < live.len() ==> is_peer_key(#[trigger] live[i]),
    ensures
        targets_among(live, from).contains(to) <==> live.contains(to.spec_key()) && to != from,
{
    let own = from.spec_key();
    let kept = live.filter(other_peer(own));
    let t = targets_among(live, from);
    lemma_without_peer(live, own);
    law_key_determines_address(from);
    law_key_determines_address(to);
    if t.contains(to) {
        let i = choose|i: int| 0 <= i < t.len() && t[i] == to;
        assert(kept.contains(kept[i]));
        let j = choose|j: int| 0 <= j < live.len() && live[j] == kept[i];
        law_address_determines_key(live[j]);
    }
    if live.contains(to.spec_key()) && to != from {
        assert(kept.contains(to.spec_key()));
        let i = choose|i: int| 0 <= i < kept.len() && kept[i] == to.spec_key();
        assert(t[i] == to);
    }
}

/// A message is passed on to no address twice, and to no more addresses than
/// there is room for under a name.
pub proof fn law_message_goes_to_each_once(
    live: Seq<PeerKey>,
    peers: Seq<PeerKey>,
    from: SocketAddr,
)
    requires
        peers_wf(peers, MAX_ADDRS as nat),
        in_order_within(live, peers),
    ensures
        targets_among(live, from).no_duplicates(),
        targets_among(live, from).len() <= MAX_ADDRS,
{
    let at = choose|at: Seq<int>| picks(live, peers, at);
    let t = targets_among(live, from);
    let kept = live.filter(other_peer(from.spec_key()));
    assert(live.no_duplicates()) by {
        assert forall|i: int, j: int|
            0 <= i < live.len() && 0 <= j < live.len() && i != j implies live[i] != live[j] by {
            assert(at[i] != at[j]);
        }
    }
    lemma_picks_len(live, peers, at);
    lemma_without_peer(live, from.spec_key());
    assert forall|i: int, j: int| 0 <= i < t.len() && 0 <= j < t.len() && i != j implies t[i]
        != t[j] by {
        assert(kept.contains(kept[i]) && kept.contains(kept[j]));
        let a = choose|a: int| 0 <= a < live.len() && live[a] == kept[i];
        let b = choose|b: int| 0 <= b < live.len() && live[b] == kept[j];
        assert(is_peer_key(peers[at[a]]) && is_peer_key(peers[at[b]]));
        law_address_determines_key(kept[i]);
        law_address_determines_key(kept[j]);
    }
}

/// Two clients that announce themselves under one name find each other. Once
/// `a` has announced itself, the name has one entry, in which `a` is the
/// youngest address. Unless all addresses there have outlived their time when
/// `b` announces itself, `a` is still among those that `b` finds, and then
/// both are known.
pub proof fn law_clients_of_one_name_meet(
    s: Seq<NameEntry>,
    name: Seq<char>,
    peers: Seq<PeerKey>,
    a: SocketAddr,
    b: SocketAddr,
    dropped: int,
)
    requires
        registry_wf(s, MAX_NAMES as nat),
        name.len() > 0,
        peers_wf(peers, MAX_ADDRS as nat),
        a != b,
    ensures
        ({
            let s1 = filed(s, name, peers, a);
            let p1 = with_peer(peers, MAX_ADDRS as nat, a.spec_key());
            let found = p1.skip(dropped);
            let p2 = with_peer(found, MAX_ADDRS as nat, b.spec_key());
            &&& registry_wf(s1, MAX_NAMES as nat)
            &&& s1.contains((name, (p1, MAX_ADDRS as nat)))
            &&& forall|e: NameEntry| #[trigger]
                s1.contains(e) && e.0 == name ==> e == (name, (p1, MAX_ADDRS as nat))
            &&& p1.last() == a.spec_key()
            &&& 0 <= dropped < p1.len() ==> found.contains(a.spec_key()) && p2.contains(
                a.spec_key(),
            ) && p2.last() == b.spec_key()
        }),
{
    let lim = MAX_ADDRS as nat;
    let s1 = filed(s, name, peers, a);
    let p1 = with_peer(peers, lim, a.spec_key());
    let e1: NameEntry = (name, (p1, lim));
    law_key_determines_address(a);
    law_key_determines_address(b);
    law_announcement_keeps_peers_wf(peers, lim, a.spec_key());
    law_announced_peer_is_youngest(peers, lim, a.spec_key());
    law_filing_keeps_registry_wf(s, MAX_NAMES as nat, e1);
    law_filed_entry_is_youngest(s, MAX_NAMES as nat, e1);
    assert(s1.contains(s1[s1.len() - 1]));
    if 0 <= dropped < p1.len() {
        let found = p1.skip(dropped);
        lemma_dropping_oldest_keeps_peers_wf(p1, lim, dropped);
        assert(found[found.len() - 1] == a.spec_key());
        law_announced_peer_is_youngest(found, lim, b.spec_key());
        law_other_peers_stay(found, lim, b.spec_key(), a.spec_key());
    }
}

} // verus!
