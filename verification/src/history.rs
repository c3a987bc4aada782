//! What holds of the server over any history of packets.
use crate::addr::{is_peer_key, law_key_determines_address, PeerKey, SocketAddr};
use crate::cache::{
    in_order_within, other_peer, picks, with_peer, without_peer, NameEntry, MAX_ADDRS, MAX_NAMES,
};
use crate::metrics::{Counter, ServerMetrics};
use crate::registry::{
    has_name, law_announcement_keeps_peers_wf, law_filed_entry_is_youngest,
    law_filing_keeps_registry_wf, law_other_names_stay, law_taking_out_and_filing_is_filing,
    lemma_entry_of, lemma_found_is_proper, lemma_peers_of, lemma_without_peer, may_find, peers_of,
    peers_wf, registry_wf,
};
use crate::server::{
    counts, files_name, filed, law_message_goes_to_all_others, law_message_goes_to_each_once,
    may_tell, takes_name, takes_packet, targets_among, PacketKind, ServerView,
};
use vstd::prelude::*;

verus! {

/// The handling of a control message with a name.
pub struct NamedEvent {
    /// The name.
    pub name: Seq<char>,
    /// The sender.
    pub from: SocketAddr,
    /// Whether the name counted as new.
    pub is_new: bool,
    /// The addresses that were found under the name.
    pub found: Seq<PeerKey>,
    /// Those to whom the message was passed on.
    pub targets: Seq<SocketAddr>,
    /// For each of them, whether it could be sent.
    pub outcomes: Seq<bool>,
}

/// What can happen to a server, from one packet to the next.
pub enum Event {
    /// Nothing could be received.
    ReceiveFailed,
    /// An empty packet.
    Empty,
    /// A request for the counters, which were sent, or could not be.
    MetricsRequest { answered: bool },
    /// A control message that could not be decoded or encoded again.
    Refused,
    /// A control message without a name, which was sent back, or could not be.
    Ping { answered: bool },
    /// A control message with a name.
    Named(NamedEvent),
}

/// How many of some outcomes are good.
pub open spec fn count_sent(outcomes: Seq<bool>) -> nat
    decreases outcomes.len(),
{
    if outcomes.len() == 0 {
        0
    } else {
        count_sent(outcomes.drop_last()) + if outcomes.last() {
            1nat
        } else {
            0nat
        }
    }
}

/// One if so, zero if not.
pub open spec fn one_if(b: bool) -> int {
    if b {
        1
    } else {
        0
    }
}

/// By how much an event raises a counter.
pub open spec fn raised(e: Event, c: Counter) -> int {
    match c {
        Counter::PktRcv => one_if(!(e is ReceiveFailed)),
        Counter::RcvErr => one_if(e is ReceiveFailed),
        Counter::HanErr => one_if(
            match e {
                Event::MetricsRequest { answered } => !answered,
                Event::Ping { answered } => !answered,
                Event::Refused => true,
                _ => false,
            },
        ),
        Counter::ZeroPkt => one_if(e is Empty),
        Counter::MeRq => one_if(e is MetricsRequest),
        Counter::Ping => one_if(e is Ping),
        Counter::Named => one_if(e is Named),
        Counter::NewNm => one_if(e matches Event::Named(n) && n.is_new),
        Counter::Lone => one_if(e matches Event::Named(n) && n.targets.len() == 0),
        Counter::Sent => match e {
            Event::Named(n) => count_sent(n.outcomes) as int,
            _ => 0,
        },
        Counter::SndErr => match e {
            Event::Named(n) => n.outcomes.len() - count_sent(n.outcomes),
            _ => 0,
        },
    }
}

/// Whether an event leads from one state to another.
pub open spec fn handled(before: ServerView, after: ServerView, e: Event) -> bool {
    &&& forall|c: Counter| #[trigger]
        after.metrics.of(c) == before.metrics.of(c) + raised(e, c)
    &&& match e {
        Event::Named(n) => {
            &&& n.name.len() > 0
            &&& may_find(before.entries, n.name, n.found, n.is_new)
            &&& may_tell(n.found, n.from, n.targets)
            &&& n.outcomes.len() == n.targets.len()
            &&& after.entries == filed(before.entries, n.name, n.found, n.from)
        },
        _ => after.entries == before.entries,
    }
}

/// Whether `path` are the states that a server goes through as it handles an
/// event, one for each of its functions that is called.
pub open spec fn steps(path: Seq<ServerView>, e: Event) -> bool {
    match e {
        Event::ReceiveFailed => path.len() == 2 && counts(path[0], path[1], Counter::RcvErr),
        Event::Empty => path.len() == 2 && takes_packet(path[0], path[1], PacketKind::Empty),
        Event::MetricsRequest { answered } => {
            &&& path.len() == 2 + one_if(!answered)
            &&& takes_packet(path[0], path[1], PacketKind::MetricsRequest)
            &&& !answered ==> counts(path[1], path[2], Counter::HanErr)
        },
        Event::Refused => {
            &&& path.len() == 3
            &&& takes_packet(path[0], path[1], PacketKind::Control)
            &&& counts(path[1], path[2], Counter::HanErr)
        },
        Event::Ping { answered } => {
            &&& path.len() == 3 + one_if(!answered)
            &&& takes_packet(path[0], path[1], PacketKind::Control)
            &&& counts(path[1], path[2], Counter::Ping)
            &&& !answered ==> counts(path[2], path[3], Counter::HanErr)
        },
        Event::Named(n) => {
            &&& path.len() == 4 + n.outcomes.len()
            &&& n.outcomes.len() == n.targets.len()
            &&& takes_packet(path[0], path[1], PacketKind::Control)
            &&& takes_name(path[1], path[2], n.name, n.found, n.is_new)
            &&& may_tell(n.found, n.from, n.targets)
            &&& forall|k: int|
                0 <= k < n.outcomes.len() ==> counts(
                    path[2 + k],
                    path[3 + k],
                    if #[trigger] n.outcomes[k] {
                        Counter::Sent
                    } else {
                        Counter::SndErr
                    },
                )
            &&& files_name(
                path[2 + n.outcomes.len() as int],
                path[3 + n.outcomes.len() as int],
                n.name,
                n.found,
                n.from,
                n.targets.len(),
            )
        },
    }
}

/// The counters and entries once the first `k` outcomes were counted.
proof fn lemma_deliveries(path: Seq<ServerView>, n: NamedEvent, k: int)
    requires
        steps(path, Event::Named(n)),
        0 <= k <= n.outcomes.len(),
    ensures
        path[2 + k].entries == path[2].entries,
        forall|c: Counter| #[trigger]
            path[2 + k].metrics.of(c) == path[2].metrics.of(c) + match c {
                Counter::Sent => count_sent(n.outcomes.take(k)) as int,
                Counter::SndErr => k - count_sent(n.outcomes.take(k)),
                _ => 0int,
            },
    decreases k,
{
    if k > 0 {
        lemma_deliveries(path, n, k - 1);
        let before = path[2 + (k - 1)];
        let after = path[3 + (k - 1)];
        let d = if n.outcomes[k - 1] {
            Counter::Sent
        } else {
            Counter::SndErr
        };
        assert(counts(before, after, d));
        assert(n.outcomes.take(k).drop_last() =~= n.outcomes.take(k - 1));
        assert(n.outcomes.take(k).last() == n.outcomes[k - 1]);
        assert(path[2 + k] == after);
        assert forall|c: Counter| #[trigger]
            path[2 + k].metrics.of(c) == path[2].metrics.of(c) + match c {
                Counter::Sent => count_sent(n.outcomes.take(k)) as int,
                Counter::SndErr => k - count_sent(n.outcomes.take(k)),
                _ => 0int,
            } by {
            assert(before.metrics.of(c) == path[2].metrics.of(c) + match c {
                Counter::Sent => count_sent(n.outcomes.take(k - 1)) as int,
                Counter::SndErr => (k - 1) - count_sent(n.outcomes.take(k - 1)),
                _ => 0int,
            });
            assert(before.metrics.spec_room_for(d));
        }
    }
}

/// What the server's functions do one after the other as they handle a message
/// with a name is what the message leads to.
proof fn lemma_named_steps(path: Seq<ServerView>, n: NamedEvent)
    requires
        steps(path, Event::Named(n)),
    ensures
        handled(path[0], path.last(), Event::Named(n)),
{
    let e = Event::Named(n);
    let len = n.outcomes.len() as int;
    lemma_deliveries(path, n, len);
    assert(n.outcomes.take(len) =~= n.outcomes);
    law_taking_out_and_filing_is_filing(
        path[0].entries,
        MAX_NAMES as nat,
        (n.name, (with_peer(n.found, MAX_ADDRS as nat, n.from.spec_key()), MAX_ADDRS as nat)),
    );
    let told = path[2 + len];
    let last = path[3 + len];
    assert(told.entries == path[2].entries);
    assert(path.last() == last);
    assert forall|c: Counter| #[trigger] last.metrics.of(c) == path[0].metrics.of(c) + raised(
        e,
        c,
    ) by {
        assert(path[1].metrics.of(c) == path[0].metrics.of(c) + one_if(c == Counter::PktRcv));
        assert(path[2].metrics.of(c) == path[1].metrics.of(c) + one_if(c == Counter::Named)
            + one_if(c == Counter::NewNm && n.is_new));
        assert(told.metrics.of(c) == path[2].metrics.of(c) + match c {
            Counter::Sent => count_sent(n.outcomes) as int,
            Counter::SndErr => len - count_sent(n.outcomes),
            _ => 0int,
        });
        assert(last.metrics.of(c) == told.metrics.of(c) + one_if(
            c == Counter::Lone && n.targets.len() == 0,
        ));
    }
}

/// What the server's functions do one after the other as they handle an event
/// is what the event leads to.
pub proof fn law_steps_handle_an_event(path: Seq<ServerView>, e: Event)
    requires
        steps(path, e),
    ensures
        handled(path[0], path.last(), e),
{
    if e is Named {
        lemma_named_steps(path, e->Named_0);
    }
}

/// Which counters go up upon an event, each by its name: every packet is
/// counted as received; then what it was, and whether its handling failed; and
/// for a message with a name whether the name was new, whether there was
/// nobody to tell, and for each of those to be told whether it could be sent.
pub proof fn law_what_is_counted(before: ServerView, after: ServerView, e: Event)
    requires
        handled(before, after, e),
    ensures
        ({
            let a = before.metrics;
            let b = after.metrics;
            match e {
                Event::ReceiveFailed => b == (ServerMetrics {
                    rcv_err: (a.rcv_err + 1) as u64,
                    ..a
                }) && a.rcv_err < u64::MAX,
                Event::Empty => {
                    &&& b.pkt_rcv == a.pkt_rcv + 1
                    &&& b.zeropkt == a.zeropkt + 1
                    &&& b == (ServerMetrics { pkt_rcv: b.pkt_rcv, zeropkt: b.zeropkt, ..a })
                },
                Event::MetricsRequest { answered } => {
                    &&& b.pkt_rcv == a.pkt_rcv + 1
                    &&& b.me_rq == a.me_rq + 1
                    &&& answered ==> b.han_err == a.han_err
                    &&& !answered ==> b.han_err == a.han_err + 1
                    &&& b == (ServerMetrics {
                        pkt_rcv: b.pkt_rcv,
                        me_rq: b.me_rq,
                        han_err: b.han_err,
                        ..a
                    })
                },
                Event::Refused => {
                    &&& b.pkt_rcv == a.pkt_rcv + 1
                    &&& b.han_err == a.han_err + 1
                    &&& b == (ServerMetrics { pkt_rcv: b.pkt_rcv, han_err: b.han_err, ..a })
                },
                Event::Ping { answered } => {
                    &&& b.pkt_rcv == a.pkt_rcv + 1
                    &&& b.ping == a.ping + 1
                    &&& answered ==> b.han_err == a.han_err
                    &&& !answered ==> b.han_err == a.han_err + 1
                    &&& b == (ServerMetrics {
                        pkt_rcv: b.pkt_rcv,
                        ping: b.ping,
                        han_err: b.han_err,
                        ..a
                    })
                },
                Event::Named(n) => {
                    &&& b.pkt_rcv == a.pkt_rcv + 1
                    &&& b.named == a.named + 1
                    &&& n.is_new ==> b.newnm == a.newnm + 1
                    &&& !n.is_new ==> b.newnm == a.newnm
                    &&& n.targets.len() == 0 ==> b.lone == a.lone + 1
                    &&& n.targets.len() > 0 ==> b.lone == a.lone
                    &&& b.sent == a.sent + n.outcomes.filter(|ok: bool| ok).len()
                    &&& b.snderr == a.snderr + n.outcomes.filter(|ok: bool| !ok).len()
                    &&& b == (ServerMetrics {
                        pkt_rcv: b.pkt_rcv,
                        named: b.named,
                        newnm: b.newnm,
                        lone: b.lone,
                        sent: b.sent,
                        snderr: b.snderr,
                        ..a
                    })
                },
            }
        }),
{
    let a = before.metrics;
    let b = after.metrics;
    if e is Named {
        lemma_outcomes_are_counted(e->Named_0.outcomes);
    }
    assert(b.of(Counter::PktRcv) == a.of(Counter::PktRcv) + raised(e, Counter::PktRcv));
    assert(b.of(Counter::HanErr) == a.of(Counter::HanErr) + raised(e, Counter::HanErr));
    assert(b.of(Counter::RcvErr) == a.of(Counter::RcvErr) + raised(e, Counter::RcvErr));
    assert(b.of(Counter::ZeroPkt) == a.of(Counter::ZeroPkt) + raised(e, Counter::ZeroPkt));
    assert(b.of(Counter::MeRq) == a.of(Counter::MeRq) + raised(e, Counter::MeRq));
    assert(b.of(Counter::Ping) == a.of(Counter::Ping) + raised(e, Counter::Ping));
    assert(b.of(Counter::Named) == a.of(Counter::Named) + raised(e, Counter::Named));
    assert(b.of(Counter::NewNm) == a.of(Counter::NewNm) + raised(e, Counter::NewNm));
    assert(b.of(Counter::Sent) == a.of(Counter::Sent) + raised(e, Counter::Sent));
    assert(b.of(Counter::SndErr) == a.of(Counter::SndErr) + raised(e, Counter::SndErr));
    assert(b.of(Counter::Lone) == a.of(Counter::Lone) + raised(e, Counter::Lone));
}

/// The good outcomes are those that are so, and the rest are not.
proof fn lemma_outcomes_are_counted(outcomes: Seq<bool>)
    ensures
        count_sent(outcomes) == outcomes.filter(|ok: bool| ok).len(),
        outcomes.len() - count_sent(outcomes) == outcomes.filter(|ok: bool| !ok).len(),
    decreases outcomes.len(),
{
    reveal(Seq::filter);
    if outcomes.len() > 0 {
        lemma_outcomes_are_counted(outcomes.drop_last());
    }
}

/// Whether a server that starts with nothing goes through `states` as `events`
/// happen to it.
pub open spec fn run(states: Seq<ServerView>, events: Seq<Event>) -> bool {
    &&& states.len() == events.len() + 1
    &&& states[0].entries == Seq::<NameEntry>::empty()
    &&& states[0].metrics == ServerMetrics::zero()
    &&& forall|i: int|
        0 <= i < events.len() ==> handled(states[i], states[i + 1], #[trigger] events[i])
}

/// Whether a name can be announced without another one being forgotten.
pub open spec fn has_room(s: Seq<NameEntry>, name: Seq<char>) -> bool {
    has_name(s, name) || s.len() < MAX_NAMES
}

/// The registry is proper whatever happened.
pub proof fn law_registry_is_always_proper(states: Seq<ServerView>, events: Seq<Event>, i: int)
    requires
        run(states, events),
        0 <= i <= events.len(),
    ensures
        registry_wf(states[i].entries, MAX_NAMES as nat),
    decreases i,
{
    if i > 0 {
        law_registry_is_always_proper(states, events, i - 1);
        assert(handled(states[i - 1], states[i], events[i - 1]));
        match events[i - 1] {
            Event::Named(n) => {
                lemma_named_event(states[i - 1], states[i], n);
            },
            _ => {},
        }
    }
}

/// What the handling of a message with a name does to the registry: the name
/// has an entry that ends in the sender, and no other name has gained or
/// changed one.
pub proof fn lemma_named_event(before: ServerView, after: ServerView, n: NamedEvent)
    requires
        registry_wf(before.entries, MAX_NAMES as nat),
        handled(before, after, Event::Named(n)),
    ensures
        registry_wf(after.entries, MAX_NAMES as nat),
        peers_wf(n.found, MAX_ADDRS as nat),
        has_name(after.entries, n.name),
        peers_of(after.entries, n.name) == with_peer(
            n.found,
            MAX_ADDRS as nat,
            n.from.spec_key(),
        ),
        forall|m: Seq<char>|
            m != n.name && #[trigger] has_name(after.entries, m) ==> has_name(before.entries, m)
                && peers_of(after.entries, m) == peers_of(before.entries, m),
        has_room(before.entries, n.name) ==> forall|m: Seq<char>|
            m != n.name && #[trigger] has_name(before.entries, m) ==> has_name(after.entries, m),
{
    let lim = MAX_ADDRS as nat;
    let max = MAX_NAMES as nat;
    let s = before.entries;
    let t = after.entries;
    let e: NameEntry = (n.name, (with_peer(n.found, lim, n.from.spec_key()), lim));
    law_key_determines_address(n.from);
    lemma_found_is_proper(s, max, n.name, n.found, n.is_new);
    law_announcement_keeps_peers_wf(n.found, lim, n.from.spec_key());
    law_filing_keeps_registry_wf(s, max, e);
    law_filed_entry_is_youngest(s, max, e);
    assert(t[t.len() - 1] == e);
    lemma_peers_of(t, max, e);
    assert forall|m: Seq<char>| m != n.name && #[trigger] has_name(t, m) implies has_name(s, m)
        && peers_of(t, m) == peers_of(s, m) by {
        let f: NameEntry = (m, (peers_of(t, m), lim));
        lemma_entry_of(t, max, m);
        law_other_names_stay(s, max, e, f);
        lemma_peers_of(s, max, f);
    }
    if has_room(s, n.name) {
        assert forall|m: Seq<char>| m != n.name && #[trigger] has_name(s, m) implies has_name(
            t,
            m,
        ) by {
            let f: NameEntry = (m, (peers_of(s, m), lim));
            lemma_entry_of(s, max, m);
            law_other_names_stay(s, max, e, f);
            lemma_peers_of(t, max, f);
        }
    }
}

/// The handling of an event leaves what is remembered for other names alone,
/// as long as there is room.
pub proof fn law_other_names_are_left_alone(
    before: ServerView,
    after: ServerView,
    e: Event,
    name: Seq<char>,
)
    requires
        registry_wf(before.entries, MAX_NAMES as nat),
        handled(before, after, e),
        e matches Event::Named(n) ==> n.name != name && has_room(before.entries, n.name),
    ensures
        has_name(after.entries, name) == has_name(before.entries, name),
        peers_of(after.entries, name) == peers_of(before.entries, name),
{
    match e {
        Event::Named(n) => {
            lemma_named_event(before, after, n);
            if has_name(before.entries, name) {
                assert(has_name(after.entries, name));
            }
        },
        _ => {},
    }
}

/// Whether nothing that is announced makes the server forget another name, as
/// is so while there are fewer names than it can remember.
pub open spec fn always_room(states: Seq<ServerView>, events: Seq<Event>) -> bool {
    forall|i: int|
        0 <= i < events.len() ==> match #[trigger] events[i] {
            Event::Named(n) => has_room(states[i].entries, n.name),
            _ => true,
        }
}

/// No counter ever falls.
pub proof fn law_no_counter_falls(
    states: Seq<ServerView>,
    events: Seq<Event>,
    i: int,
    j: int,
    c: Counter,
)
    requires
        run(states, events),
        0 <= i <= j <= events.len(),
    ensures
        states[i].metrics.of(c) <= states[j].metrics.of(c),
    decreases j - i,
{
    if i < j {
        law_no_counter_falls(states, events, i, j - 1, c);
        assert(handled(states[j - 1], states[j], events[j - 1]));
        match events[j - 1] {
            Event::Named(n) => {
                lemma_count_sent(n.outcomes);
            },
            _ => {},
        }
        assert(states[j].metrics.of(c) == states[j - 1].metrics.of(c) + raised(events[j - 1], c));
    }
}

proof fn lemma_count_sent(outcomes: Seq<bool>)
    ensures
        count_sent(outcomes) <= outcomes.len(),
    decreases outcomes.len(),
{
    if outcomes.len() > 0 {
        lemma_count_sent(outcomes.drop_last());
    }
}

/// Whether the counters agree with each other: every packet is sorted into one
/// of four kinds or its handling failed; a message with a new name finds
/// nobody; and one that finds somebody goes to at least one address and to no
/// more than are remembered for a name.
pub open spec fn accounted(m: ServerMetrics) -> bool {
    &&& m.sorted_packets() <= m.pkt_rcv <= m.sorted_packets() + m.han_err
    &&& m.newnm <= m.lone <= m.named
    &&& m.named - m.lone <= m.sent + m.snderr <= MAX_ADDRS * (m.named - m.lone)
}

/// The counters agree with each other whatever happened.
pub proof fn law_counters_always_agree(states: Seq<ServerView>, events: Seq<Event>, i: int)
    requires
        run(states, events),
        0 <= i <= events.len(),
    ensures
        accounted(states[i].metrics),
    decreases i,
{
    if i > 0 {
        law_counters_always_agree(states, events, i - 1);
        law_registry_is_always_proper(states, events, i - 1);
        let e = events[i - 1];
        let a = states[i - 1].metrics;
        let b = states[i].metrics;
        assert(handled(states[i - 1], states[i], e));
        match e {
            Event::Named(n) => {
                lemma_count_sent(n.outcomes);
                lemma_named_event(states[i - 1], states[i], n);
                let live = choose|live: Seq<PeerKey>|
                    in_order_within(live, n.found) && n.targets == #[trigger] targets_among(
                        live,
                        n.from,
                    );
                law_message_goes_to_each_once(live, n.found, n.from);
                if n.is_new && n.targets.len() > 0 {
                    lemma_targets_were_found(n, 0);
                }
            },
            _ => {},
        }
        assert(b.of(Counter::PktRcv) == a.of(Counter::PktRcv) + raised(e, Counter::PktRcv));
        assert(b.of(Counter::HanErr) == a.of(Counter::HanErr) + raised(e, Counter::HanErr));
        assert(b.of(Counter::ZeroPkt) == a.of(Counter::ZeroPkt) + raised(e, Counter::ZeroPkt));
        assert(b.of(Counter::MeRq) == a.of(Counter::MeRq) + raised(e, Counter::MeRq));
        assert(b.of(Counter::Ping) == a.of(Counter::Ping) + raised(e, Counter::Ping));
        assert(b.of(Counter::Named) == a.of(Counter::Named) + raised(e, Counter::Named));
        assert(b.of(Counter::NewNm) == a.of(Counter::NewNm) + raised(e, Counter::NewNm));
        assert(b.of(Counter::Lone) == a.of(Counter::Lone) + raised(e, Counter::Lone));
        assert(b.of(Counter::Sent) == a.of(Counter::Sent) + raised(e, Counter::Sent));
        assert(b.of(Counter::SndErr) == a.of(Counter::SndErr) + raised(e, Counter::SndErr));
    }
}

/// Those to whom a message is passed on were found under its name, and are
/// not its sender.
proof fn lemma_targets_were_found(n: NamedEvent, k: int)
    requires
        peers_wf(n.found, MAX_ADDRS as nat),
        may_tell(n.found, n.from, n.targets),
        0 <= k < n.targets.len(),
    ensures
        n.found.contains(n.targets[k].spec_key()),
        n.targets[k] != n.from,
{
    let live = choose|live: Seq<PeerKey>|
        in_order_within(live, n.found) && n.targets == #[trigger] targets_among(live, n.from);
    let at = choose|at: Seq<int>| picks(live, n.found, at);
    assert forall|i: int| 0 <= i < live.len() implies is_peer_key(#[trigger] live[i]) by {
        assert(n.found[at[i]] == live[i]);
    }
    law_message_goes_to_all_others(live, n.from, n.targets[k]);
    assert(n.targets.contains(n.targets[k]));
    let i = choose|i: int| 0 <= i < live.len() && live[i] == n.targets[k].spec_key();
    assert(n.found[at[i]] == live[i]);
}

/// The addresses that were announced under a name, each once, in the order in
/// which they were last announced.
pub open spec fn recency(events: Seq<Event>, name: Seq<char>) -> Seq<PeerKey>
    decreases events.len(),
{
    if events.len() == 0 {
        Seq::empty()
    } else {
        let rest = recency(events.drop_last(), name);
        match events.last() {
            Event::Named(n) => if n.name == name {
                without_peer(rest, n.from.spec_key()).push(n.from.spec_key())
            } else {
                rest
            },
            _ => rest,
        }
    }
}

/// Whether `p` is the end of `r`.
pub open spec fn is_end_of(p: Seq<PeerKey>, r: Seq<PeerKey>) -> bool {
    p.len() <= r.len() && p == r.skip(r.len() - p.len())
}

/// An announcement keeps the addresses that are remembered the end of those
/// that were announced.
pub proof fn lemma_announcement_keeps_end(p: Seq<PeerKey>, r: Seq<PeerKey>, limit: nat, k: PeerKey)
    requires
        is_end_of(p, r),
    ensures
        is_end_of(with_peer(p, limit, k), without_peer(r, k).push(k)),
{
    let cut = r.len() - p.len();
    let head = r.take(cut);
    assert(head + p =~= r);
    Seq::filter_distributes_over_add(head, p, other_peer(k));
    let w = without_peer(p, k).push(k);
    let v = without_peer(r, k).push(k);
    assert(v =~= without_peer(head, k) + w);
    assert(v.skip(v.len() - w.len()) =~= w);
    let t = with_peer(p, limit, k);
    assert(v.skip(v.len() - t.len()) =~= t);
}

/// The addresses that are remembered for a name are those that were announced
/// under it most recently, whatever happened: of the addresses announced under
/// that very name, in the order of their last announcement, they are the end.
pub proof fn law_most_recent_addresses_are_remembered(
    states: Seq<ServerView>,
    events: Seq<Event>,
    i: int,
    name: Seq<char>,
)
    requires
        run(states, events),
        0 <= i <= events.len(),
    ensures
        is_end_of(peers_of(states[i].entries, name), recency(events.take(i), name)),
        peers_of(states[i].entries, name).len() <= MAX_ADDRS,
    decreases i,
{
    law_registry_is_always_proper(states, events, i);
    let p = peers_of(states[i].entries, name);
    let r = recency(events.take(i), name);
    if has_name(states[i].entries, name) {
        lemma_entry_of(states[i].entries, MAX_NAMES as nat, name);
    }
    if i == 0 {
        assert(p =~= r.skip(0));
    } else {
        let e = events[i - 1];
        let before = states[i - 1].entries;
        law_registry_is_always_proper(states, events, i - 1);
        law_most_recent_addresses_are_remembered(states, events, i - 1, name);
        assert(handled(states[i - 1], states[i], e));
        assert(events.take(i).drop_last() =~= events.take(i - 1));
        assert(events.take(i).last() == e);
        let rest = recency(events.take(i - 1), name);
        match e {
            Event::Named(n) => {
                lemma_named_event(states[i - 1], states[i], n);
                if n.name == name {
                    lemma_found_is_end(before, n, rest);
                    lemma_announcement_keeps_end(
                        n.found,
                        rest,
                        MAX_ADDRS as nat,
                        n.from.spec_key(),
                    );
                } else if !has_name(states[i].entries, name) {
                    assert(p =~= r.skip(r.len() as int));
                }
            },
            _ => {},
        }
    }
}

/// What is found under a name is the end of what was announced under it.
pub proof fn lemma_found_is_end(before: Seq<NameEntry>, n: NamedEvent, r: Seq<PeerKey>)
    requires
        may_find(before, n.name, n.found, n.is_new),
        is_end_of(peers_of(before, n.name), r),
    ensures
        is_end_of(n.found, r),
{
    if n.is_new {
        assert(n.found =~= r.skip(r.len() as int));
    } else {
        let p = peers_of(before, n.name);
        let d = choose|d: int| 0 <= d <= p.len() && n.found == #[trigger] p.skip(d);
        assert(n.found =~= r.skip(r.len() - n.found.len()));
    }
}

/// Whether no address and no name has outlived its time when it mattered:
/// whatever is remembered for a name is found when it is announced, and is
/// alive.
pub open spec fn nothing_expired(states: Seq<ServerView>, events: Seq<Event>) -> bool {
    forall|i: int|
        0 <= i < events.len() ==> match #[trigger] events[i] {
            Event::Named(n) => {
                &&& n.found == peers_of(states[i].entries, n.name)
                &&& n.targets == targets_among(n.found, n.from)
            },
            _ => true,
        }
}

/// The end of a list, up to as many addresses as there is room for.
pub open spec fn newest(r: Seq<PeerKey>) -> Seq<PeerKey> {
    if r.len() <= MAX_ADDRS {
        r
    } else {
        r.skip(r.len() - MAX_ADDRS)
    }
}

/// Taking out what is there makes a list without repeats one shorter.
pub proof fn lemma_without_one(s: Seq<PeerKey>, k: PeerKey)
    requires
        s.no_duplicates(),
    ensures
        without_peer(s, k).len() == s.len() - one_if(s.contains(k)),
    decreases s.len(),
{
    reveal(Seq::filter);
    if s.len() > 0 {
        let t = s.drop_last();
        lemma_without_one(t, k);
        assert(s =~= t.push(s.last()));
        if t.contains(k) {
            let i = choose|i: int| 0 <= i < t.len() && t[i] == k;
            assert(s[i] == k);
            assert(s[i] != s[s.len() - 1]);
        } else if s.last() == k {
            assert(s[s.len() - 1] == k);
        } else if s.contains(k) {
            let i = choose|i: int| 0 <= i < s.len() && s[i] == k;
            assert(t[i] == k);
        }
    }
}

/// No address is listed twice among those that were announced.
pub proof fn lemma_recency_has_no_repeats(events: Seq<Event>, name: Seq<char>)
    ensures
        recency(events, name).no_duplicates(),
    decreases events.len(),
{
    if events.len() > 0 {
        let rest = recency(events.drop_last(), name);
        lemma_recency_has_no_repeats(events.drop_last(), name);
        match events.last() {
            Event::Named(n) => if n.name == name {
                let k = n.from.spec_key();
                let w = without_peer(rest, k);
                lemma_without_peer(rest, k);
                assert(!w.contains(k));
                let v = w.push(k);
                assert forall|i: int, j: int|
                    0 <= i < v.len() && 0 <= j < v.len() && i != j implies v[i] != v[j] by {
                    if i < w.len() {
                        assert(w.contains(w[i]));
                    }
                    if j < w.len() {
                        assert(w.contains(w[j]));
                    }
                }
            },
            _ => {},
        }
    }
}

/// While nothing expires and no name is forgotten for want of room, the
/// addresses that are remembered for a name are exactly those that were
/// announced under it most recently, up to as many as there is room for.
pub proof fn law_all_recent_addresses_are_remembered(
    states: Seq<ServerView>,
    events: Seq<Event>,
    i: int,
    name: Seq<char>,
)
    requires
        run(states, events),
        always_room(states, events),
        nothing_expired(states, events),
        0 <= i <= events.len(),
    ensures
        peers_of(states[i].entries, name) == newest(recency(events.take(i), name)),
    decreases i,
{
    law_most_recent_addresses_are_remembered(states, events, i, name);
    law_registry_is_always_proper(states, events, i);
    let p = peers_of(states[i].entries, name);
    let r = recency(events.take(i), name);
    lemma_recency_has_no_repeats(events.take(i), name);
    if i > 0 {
        let e = events[i - 1];
        let before = states[i - 1].entries;
        law_registry_is_always_proper(states, events, i - 1);
        law_all_recent_addresses_are_remembered(states, events, i - 1, name);
        law_most_recent_addresses_are_remembered(states, events, i - 1, name);
        assert(handled(states[i - 1], states[i], e));
        assert(events.take(i).drop_last() =~= events.take(i - 1));
        assert(events.take(i).last() == e);
        let rest = recency(events.take(i - 1), name);
        lemma_recency_has_no_repeats(events.take(i - 1), name);
        match e {
            Event::Named(n) => {
                lemma_named_event(states[i - 1], states[i], n);
                if n.name == name {
                    let k = n.from.spec_key();
                    let q = peers_of(before, name);
                    assert(n.found == q);
                    lemma_without_one(q, k);
                    lemma_without_one(rest, k);
                    if q.contains(k) {
                        let a = choose|a: int| 0 <= a < q.len() && q[a] == k;
                        assert(rest[rest.len() - q.len() + a] == k);
                    }
                    if rest.contains(k) && !q.contains(k) && q.len() == rest.len() {
                        assert(q =~= rest);
                    }
                } else if has_name(before, name) {
                    assert(has_name(states[i].entries, name));
                } else {
                    assert(!has_name(states[i].entries, name));
                }
            },
            _ => {},
        }
    }
    assert(p.len() == if r.len() <= MAX_ADDRS {
        r.len() as int
    } else {
        MAX_ADDRS as int
    });
    assert(r.skip(0) =~= r);
}

/// While nothing expires and no name is forgotten for want of room, a message
/// goes to those that announced themselves under its name most recently, up to
/// as many as there is room for, from the oldest to the youngest, its sender
/// left out.
pub proof fn law_all_recent_others_are_told(
    states: Seq<ServerView>,
    events: Seq<Event>,
    i: int,
    n: NamedEvent,
)
    requires
        run(states, events),
        always_room(states, events),
        nothing_expired(states, events),
        0 <= i < events.len(),
        events[i] == Event::Named(n),
    ensures
        n.targets == targets_among(newest(recency(events.take(i), n.name)), n.from),
{
    law_all_recent_addresses_are_remembered(states, events, i, n.name);
}

/// Whether an address was announced under a name.
pub open spec fn was_announced(events: Seq<Event>, name: Seq<char>, a: SocketAddr) -> bool {
    exists|i: int|
        0 <= i < events.len() && (#[trigger] events[i] matches Event::Named(n) && n.name == name
            && n.from == a)
}

/// What is among the addresses announced under a name was announced under it.
pub proof fn lemma_recency_was_announced(events: Seq<Event>, name: Seq<char>, a: SocketAddr)
    requires
        recency(events, name).contains(a.spec_key()),
    ensures
        was_announced(events, name, a),
    decreases events.len(),
{
    if events.len() > 0 {
        let head = events.drop_last();
        let rest = recency(head, name);
        let k = a.spec_key();
        let named = match events.last() {
            Event::Named(n) => n.name == name,
            _ => false,
        };
        if named && events.last()->Named_0.from.spec_key() == k {
            law_key_determines_address(a);
            law_key_determines_address(events.last()->Named_0.from);
            assert(events[events.len() - 1] == events.last());
        } else {
            if named {
                let own = events.last()->Named_0.from.spec_key();
                let v = recency(events, name);
                lemma_without_peer(rest, own);
                let j = choose|j: int| 0 <= j < v.len() && v[j] == k;
                assert(without_peer(rest, own)[j] == k);
                assert(without_peer(rest, own).contains(k));
            }
            assert(rest.contains(k));
            lemma_recency_was_announced(head, name, a);
            let j = choose|j: int|
                0 <= j < head.len() && (#[trigger] head[j] matches Event::Named(n) && n.name == name
                    && n.from == a);
            assert(events[j] == head[j]);
        }
    }
}

/// Every address that is remembered for a name was announced under that very
/// name before.
pub proof fn law_remembered_addresses_were_announced(
    states: Seq<ServerView>,
    events: Seq<Event>,
    i: int,
    name: Seq<char>,
    a: SocketAddr,
)
    requires
        run(states, events),
        0 <= i <= events.len(),
        peers_of(states[i].entries, name).contains(a.spec_key()),
    ensures
        was_announced(events.take(i), name, a),
{
    law_most_recent_addresses_are_remembered(states, events, i, name);
    let p = peers_of(states[i].entries, name);
    let r = recency(events.take(i), name);
    let j = choose|j: int| 0 <= j < p.len() && p[j] == a.spec_key();
    assert(r[r.len() - p.len() + j] == a.spec_key());
    lemma_recency_was_announced(events.take(i), name, a);
}

/// A message with a name goes only to addresses that were announced under that
/// very name before, none of them its sender.
pub proof fn law_messages_stay_within_their_name(
    states: Seq<ServerView>,
    events: Seq<Event>,
    i: int,
    n: NamedEvent,
    k: int,
)
    requires
        run(states, events),
        0 <= i < events.len(),
        events[i] == Event::Named(n),
        0 <= k < n.targets.len(),
    ensures
        was_announced(events.take(i), n.name, n.targets[k]),
        n.targets[k] != n.from,
{
    assert(handled(states[i], states[i + 1], events[i]));
    law_registry_is_always_proper(states, events, i);
    lemma_named_event(states[i], states[i + 1], n);
    lemma_targets_were_found(n, k);
    let p = peers_of(states[i].entries, n.name);
    if !n.is_new {
        let d = choose|d: int| 0 <= d <= p.len() && n.found == #[trigger] p.skip(d);
        let j = choose|j: int| 0 <= j < n.found.len() && n.found[j] == n.targets[k].spec_key();
        assert(p[d + j] == n.targets[k].spec_key());
    }
    law_remembered_addresses_were_announced(states, events, i, n.name, n.targets[k]);
}

/// The messages that bear a name.
pub open spec fn bears(name: Seq<char>) -> spec_fn(Event) -> bool {
    |e: Event| e matches Event::Named(n) && n.name == name
}

/// What the messages with a name alone make the server remember for it.
pub open spec fn remembered(events: Seq<Event>, name: Seq<char>) -> Option<Seq<PeerKey>> {
    let own = events.filter(bears(name));
    if own.len() == 0 {
        None
    } else {
        let n = own.last()->Named_0;
        Some(with_peer(n.found, MAX_ADDRS as nat, n.from.spec_key()))
    }
}

/// While no name is forgotten for want of room, what is remembered for a name
/// depends on the messages with that name alone.
pub proof fn law_a_name_depends_on_its_own_messages(
    states: Seq<ServerView>,
    events: Seq<Event>,
    i: int,
    name: Seq<char>,
)
    requires
        run(states, events),
        always_room(states, events),
        0 <= i <= events.len(),
    ensures
        match remembered(events.take(i), name) {
            Some(p) => has_name(states[i].entries, name) && peers_of(states[i].entries, name) == p,
            None => !has_name(states[i].entries, name),
        },
    decreases i,
{
    reveal(Seq::filter);
    if i > 0 {
        let e = events[i - 1];
        law_a_name_depends_on_its_own_messages(states, events, i - 1, name);
        law_registry_is_always_proper(states, events, i - 1);
        assert(handled(states[i - 1], states[i], e));
        assert(events.take(i).drop_last() =~= events.take(i - 1));
        assert(events.take(i).last() == e);
        match e {
            Event::Named(n) => {
                lemma_named_event(states[i - 1], states[i], n);
                if n.name != name {
                    assert(!bears(name)(e));
                    if has_name(states[i - 1].entries, name) {
                        assert(has_name(states[i].entries, name));
                    }
                } else {
                    assert(bears(name)(e));
                }
            },
            _ => {
                assert(!bears(name)(e));
            },
        }
    }
}

/// Messages with other names make no difference to a name. If the same
/// messages with a name were handled in two histories, with whatever messages
/// with other names in between, and no name was forgotten for want of room,
/// then the same is remembered for it, and the same can be found under it when
/// it is announced next.
pub proof fn law_other_names_make_no_difference(
    states1: Seq<ServerView>,
    events1: Seq<Event>,
    states2: Seq<ServerView>,
    events2: Seq<Event>,
    name: Seq<char>,
    found: Seq<PeerKey>,
    is_new: bool,
)
    requires
        run(states1, events1),
        run(states2, events2),
        always_room(states1, events1),
        always_room(states2, events2),
        events1.filter(bears(name)) == events2.filter(bears(name)),
    ensures
        has_name(states1.last().entries, name) == has_name(states2.last().entries, name),
        peers_of(states1.last().entries, name) == peers_of(states2.last().entries, name),
        may_find(states1.last().entries, name, found, is_new) == may_find(
            states2.last().entries,
            name,
            found,
            is_new,
        ),
{
    law_a_name_depends_on_its_own_messages(states1, events1, events1.len() as int, name);
    law_a_name_depends_on_its_own_messages(states2, events2, events2.len() as int, name);
    assert(events1.take(events1.len() as int) =~= events1);
    assert(events2.take(events2.len() as int) =~= events2);
}

} // verus!
