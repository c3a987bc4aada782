//! Who is told of an announcement as time passes.
//!
//! The caches read the clock by themselves, so no function here knows the
//! time. What follows is said of histories in which each event has a time and
//! the caches drop entries on time: an entry is gone once more than its time
//! to live has passed since it was last written.
use crate::actor::NANOS_PER_SEC;
use crate::addr::{
    is_peer_key, law_address_determines_key, law_key_determines_address, spec_addr_of_key, PeerKey,
    SocketAddr,
};
use crate::cache::{
    other_name, other_peer, picks, with_name, with_peer, without_name, without_peer, NameEntry,
    ADDR_EXPIRE_SECONDS, MAX_ADDRS, MAX_NAMES, NAME_EXPIRE_SECONDS,
};
use crate::history::{
    bears, handled, is_end_of, law_most_recent_addresses_are_remembered,
    law_registry_is_always_proper, lemma_announcement_keeps_end, lemma_found_is_end,
    lemma_named_event, lemma_recency_has_no_repeats, lemma_recency_was_announced,
    lemma_without_one, newest, nothing_expired, recency, run, Event, NamedEvent,
};
use crate::registry::{
    has_name, law_announced_peer_is_youngest, law_removal_keeps_registry_wf,
    lemma_entry_of, lemma_filter_in_order, lemma_filter_keeps_all, lemma_without_peer, peers_of,
    peers_wf, registry_wf,
};
use crate::server::{
    law_message_goes_to_all_others, law_message_goes_to_each_once, targets_among, ServerView,
};
use vstd::prelude::*;

verus! {

/// Whether an event is an announcement of an address under a name.
pub open spec fn announces(e: Event, name: Seq<char>, k: PeerKey) -> bool {
    e matches Event::Named(n) && n.name == name && n.from.spec_key() == k
}

/// Whether an address announced itself under a name among the first `i`
/// events, no longer before `t` than addresses are remembered. Times are in
/// nanoseconds.
pub open spec fn heard_from(
    events: Seq<Event>,
    at: Seq<int>,
    i: int,
    name: Seq<char>,
    k: PeerKey,
    t: int,
) -> bool {
    exists|j: int|
        0 <= j < i && announces(#[trigger] events[j], name, k) && t - at[j] <= ADDR_EXPIRE_SECONDS
            * NANOS_PER_SEC
}

/// The addresses of which that is so.
pub open spec fn still_alive(
    events: Seq<Event>,
    at: Seq<int>,
    i: int,
    name: Seq<char>,
    t: int,
) -> spec_fn(PeerKey) -> bool {
    |k: PeerKey| heard_from(events, at, i, name, k, t)
}

/// Whether any address announced itself under a name among the first `i`
/// events, no longer before `t` than names are remembered.
pub open spec fn heard(events: Seq<Event>, at: Seq<int>, i: int, name: Seq<char>, t: int) -> bool {
    exists|j: int|
        0 <= j < i && bears(name)(#[trigger] events[j]) && t - at[j] <= NAME_EXPIRE_SECONDS
            * NANOS_PER_SEC
}

/// Whether an announcement finds what is there in time: the name counts as new
/// if it is not there, or has not been heard for too long; of the addresses
/// only such are dropped as have not been heard for too long; and of those
/// found all that were heard in time are told, but for the sender.
#[verifier::opaque]
pub open spec fn found_in_time(
    s: Seq<NameEntry>,
    events: Seq<Event>,
    at: Seq<int>,
    i: int,
    n: NamedEvent,
) -> bool {
    let p = peers_of(s, n.name);
    let alive = still_alive(events, at, i, n.name, at[i]);
    &&& n.is_new <==> !(has_name(s, n.name) && heard(events, at, i, n.name, at[i]))
    &&& !n.is_new ==> exists|d: int|
        0 <= d <= p.len() && n.found == #[trigger] p.skip(d) && forall|x: int|
            0 <= x < d ==> !alive(#[trigger] p[x])
    &&& n.targets == targets_among(n.found.filter(alive), n.from)
}

/// Whether the events of a history happen at the given times, which never go
/// back, and each finds what is there in time.
pub open spec fn on_time(states: Seq<ServerView>, events: Seq<Event>, at: Seq<int>) -> bool {
    &&& at.len() == events.len()
    &&& forall|i: int, j: int| 0 <= i <= j < at.len() ==> #[trigger] at[i] <= #[trigger] at[j]
    &&& forall|i: int|
        0 <= i < events.len() ==> match #[trigger] events[i] {
            Event::Named(n) => found_in_time(states[i].entries, events, at, i, n),
            _ => true,
        }
}

/// The other names under which somebody announced itself since the last
/// announcement under a name.
pub open spec fn others_since(events: Seq<Event>, name: Seq<char>) -> Set<Seq<char>>
    decreases events.len(),
{
    if events.len() == 0 {
        Set::empty()
    } else {
        let rest = others_since(events.drop_last(), name);
        match events.last() {
            Event::Named(n) => if n.name == name {
                Set::empty()
            } else {
                rest.insert(n.name)
            },
            _ => rest,
        }
    }
}

/// Whether event `h` is the last of the first `i` in which an address announced
/// itself under a name.
pub open spec fn last_heard(
    events: Seq<Event>,
    h: int,
    i: int,
    name: Seq<char>,
    k: PeerKey,
) -> bool {
    &&& 0 <= h < i
    &&& announces(events[h], name, k)
    &&& forall|g: int| h < g < i ==> !announces(#[trigger] events[g], name, k)
}

/// Whether there was room for a name from event `h` to event `i`: each time
/// that it was announced in between, and at event `i`, fewer other names were
/// announced since the time before than there is room for.
pub open spec fn kept_room(events: Seq<Event>, h: int, i: int, name: Seq<char>) -> bool {
    forall|j: int|
        h < j <= i && (j < i ==> bears(name)(events[j])) ==> #[trigger] others_since(
            events.take(j),
            name,
        ).len() < MAX_NAMES
}

/// Whether no address was forgotten, for want of room for its name, that is
/// owed the message of event `i`: of the newest addresses that were heard in
/// time, each but the sender had its name kept since it last announced itself.
pub open spec fn nobody_crowded_out(
    events: Seq<Event>,
    at: Seq<int>,
    i: int,
    n: NamedEvent,
) -> bool {
    forall|h: int, k: PeerKey| #[trigger]
        last_heard(events, h, i, n.name, k) && k != n.from.spec_key() && at[i] - at[h]
            <= ADDR_EXPIRE_SECONDS * NANOS_PER_SEC && newest(
            recency(events.take(i), n.name),
        ).contains(k) ==> kept_room(events, h, i, n.name)
}

/// Whether a name was announced.
pub open spec fn was_heard(events: Seq<Event>, name: Seq<char>) -> bool {
    exists|j: int| 0 <= j < events.len() && bears(name)(#[trigger] events[j])
}

/// The other names are finitely many.
proof fn lemma_others_are_finite(events: Seq<Event>, name: Seq<char>)
    ensures
        others_since(events, name).finite(),
    decreases events.len(),
{
    if events.len() > 0 {
        lemma_others_are_finite(events.drop_last(), name);
    }
}

/// An event that does not bear a name takes none of the other names away.
proof fn lemma_others_grow(events: Seq<Event>, i: int, name: Seq<char>)
    requires
        0 < i <= events.len(),
        !bears(name)(events[i - 1]),
    ensures
        others_since(events.take(i - 1), name).subset_of(others_since(events.take(i), name)),
        others_since(events.take(i - 1), name).len() <= others_since(events.take(i), name).len(),
{
    lemma_others_are_finite(events.take(i), name);
    assert(events.take(i).drop_last() =~= events.take(i - 1));
    assert(events.take(i).last() == events[i - 1]);
    vstd::set_lib::lemma_len_subset(
        others_since(events.take(i - 1), name),
        others_since(events.take(i), name),
    );
}

/// Whether a registry holds a name, and after it only names out of a set.
pub open spec fn followed_by(s: Seq<NameEntry>, name: Seq<char>, others: Set<Seq<char>>) -> bool {
    exists|p: int|
        0 <= p < s.len() && (#[trigger] s[p]).0 == name && forall|q: int|
            p < q < s.len() ==> others.contains((#[trigger] s[q]).0)
}

/// A registry holds no more distinct names after some position than a set that
/// they are all from.
proof fn lemma_names_fit(s: Seq<NameEntry>, p: int, others: Set<Seq<char>>)
    requires
        forall|i: int, j: int| 0 <= i < j < s.len() ==> #[trigger] s[i].0 != #[trigger] s[j].0,
        others.finite(),
        -1 <= p < s.len(),
        forall|q: int| p < q < s.len() ==> others.contains((#[trigger] s[q]).0),
    ensures
        s.len() - p - 1 <= others.len(),
{
    let names = Seq::new((s.len() - p - 1) as nat, |i: int| s[p + 1 + i].0);
    assert(names.no_duplicates()) by {
        assert forall|i: int, j: int|
            0 <= i < names.len() && 0 <= j < names.len() && i != j implies names[i] != names[j] by {
            if i < j {
                assert(s[p + 1 + i].0 != s[p + 1 + j].0);
            } else {
                assert(s[p + 1 + j].0 != s[p + 1 + i].0);
            }
        }
    }
    names.unique_seq_to_set();
    assert forall|x: Seq<char>| names.to_set().contains(x) implies others.contains(x) by {
        let i = choose|i: int| 0 <= i < names.len() && names[i] == x;
        assert(others.contains(s[p + 1 + i].0));
    }
    vstd::set_lib::lemma_len_subset(names.to_set(), others);
}

/// Filing another name leaves a name in the registry, if there is room for all
/// the names after it.
proof fn lemma_filing_keeps_name(
    s: Seq<NameEntry>,
    e: NameEntry,
    name: Seq<char>,
    others: Set<Seq<char>>,
)
    requires
        registry_wf(s, MAX_NAMES as nat),
        e.0 != name,
        followed_by(s, name, others),
        others.finite(),
        others.contains(e.0),
        others.len() < MAX_NAMES,
    ensures
        followed_by(with_name(s, MAX_NAMES as nat, e), name, others),
{
    reveal(Seq::filter);
    let p = choose|p: int|
        0 <= p < s.len() && (#[trigger] s[p]).0 == name && forall|q: int|
            p < q < s.len() ==> others.contains((#[trigger] s[q]).0);
    let pred = other_name(e.0);
    let head = s.take(p + 1);
    let tail = s.skip(p + 1);
    assert(head + tail =~= s);
    Seq::filter_distributes_over_add(head, tail, pred);
    assert(head.last() == s[p]);
    let a = head.filter(pred);
    let b = tail.filter(pred);
    let r = without_name(s, e.0);
    assert(r == a + b);
    assert(a.len() > 0 && a.last() == s[p]);
    lemma_filter_in_order(tail, pred);
    let at = choose|at: Seq<int>| picks(b, tail, at);
    let w = r.push(e);
    let c = a.len() - 1;
    assert(w[c].0 == name);
    assert forall|q: int| c < q < w.len() implies others.contains((#[trigger] w[q]).0) by {
        if q < r.len() {
            let i = q - a.len();
            assert(b[i] == tail[at[i]]);
            assert(tail[at[i]] == s[p + 1 + at[i]]);
            assert(w[q] == b[i]);
        }
    }
    law_removal_keeps_registry_wf(s, MAX_NAMES as nat, e.0);
    assert forall|i: int, j: int| 0 <= i < j < w.len() implies #[trigger] w[i].0
        != #[trigger] w[j].0 by {
        assert(w[i] == r[i]);
        if j < r.len() {
            assert(w[j] == r[j]);
        }
    }
    lemma_names_fit(w, c, others);
    let t = with_name(s, MAX_NAMES as nat, e);
    if w.len() > MAX_NAMES {
        assert(c > 0);
        assert(t[c - 1] == w[c]);
        assert forall|q: int| c - 1 < q < t.len() implies others.contains((#[trigger] t[q]).0) by {
            assert(t[q] == w[q + 1]);
        }
    } else {
        assert(t[c] == w[c]);
    }
}

/// A name that was announced is still in the registry, if fewer other names
/// were announced since than there is room for.
pub proof fn law_name_stays_while_there_is_room(
    states: Seq<ServerView>,
    events: Seq<Event>,
    i: int,
    name: Seq<char>,
)
    requires
        run(states, events),
        0 <= i <= events.len(),
        was_heard(events.take(i), name),
        others_since(events.take(i), name).len() < MAX_NAMES,
    ensures
        has_name(states[i].entries, name),
        followed_by(states[i].entries, name, others_since(events.take(i), name)),
    decreases i,
{
    if i > 0 {
        let e = events[i - 1];
        let others = others_since(events.take(i), name);
        let before = states[i - 1].entries;
        let s = states[i].entries;
        assert(events.take(i).drop_last() =~= events.take(i - 1));
        assert(events.take(i).last() == e);
        law_registry_is_always_proper(states, events, i - 1);
        assert(handled(states[i - 1], states[i], e));
        lemma_others_are_finite(events.take(i), name);
        if !bears(name)(e) {
            let j = choose|j: int|
                0 <= j < events.take(i).len() && bears(name)(#[trigger] events.take(i)[j]);
            assert(events.take(i - 1)[j] == events.take(i)[j]);
            lemma_others_grow(events, i, name);
            law_name_stays_while_there_is_room(states, events, i - 1, name);
            let p = choose|p: int|
                0 <= p < before.len() && (#[trigger] before[p]).0 == name && forall|q: int|
                    p < q < before.len() ==> others_since(events.take(i - 1), name).contains(
                        (#[trigger] before[q]).0,
                    );
            assert(before[p].0 == name);
            assert(followed_by(before, name, others));
        }
        match e {
            Event::Named(n) => {
                lemma_named_event(states[i - 1], states[i], n);
                let f: NameEntry = (
                    n.name,
                    (with_peer(n.found, MAX_ADDRS as nat, n.from.spec_key()), MAX_ADDRS as nat),
                );
                if n.name == name {
                    assert(s.last() == f);
                    assert(s[s.len() - 1].0 == name);
                } else {
                    lemma_filing_keeps_name(before, f, name, others);
                }
            },
            _ => {},
        }
        let p = choose|p: int|
            0 <= p < s.len() && (#[trigger] s[p]).0 == name && forall|q: int|
                p < q < s.len() ==> others.contains((#[trigger] s[q]).0);
        assert(s[p].0 == name);
    }
}

/// An address that is among the newest once another one has announced itself
/// was among the newest before.
proof fn lemma_newest_before(r: Seq<PeerKey>, k: PeerKey, x: PeerKey)
    requires
        r.no_duplicates(),
        x != k,
        newest(without_peer(r, k).push(k)).contains(x),
    ensures
        newest(r).contains(x),
{
    let after = without_peer(r, k).push(k);
    let q = choose|q: int| 0 <= q < newest(after).len() && newest(after)[q] == x;
    let c = if after.len() <= MAX_ADDRS {
        q
    } else {
        after.len() - MAX_ADDRS + q
    };
    assert(after[c] == x);
    assert(without_peer(r, k)[c] == x);
    if r.len() <= MAX_ADDRS {
        lemma_without_peer(r, k);
        assert(without_peer(r, k).contains(x));
    } else {
        let cut = r.len() - MAX_ADDRS;
        let head = r.take(cut);
        let tail = r.skip(cut);
        assert(head + tail =~= r);
        Seq::filter_distributes_over_add(head, tail, other_peer(k));
        lemma_without_one(tail, k);
        lemma_without_peer(tail, k);
        let a = without_peer(head, k);
        let b = without_peer(tail, k);
        assert(without_peer(r, k) == a + b);
        assert(b[c - a.len()] == x);
        assert(b.contains(x));
    }
}

/// An address that was found and is among the newest is remembered when
/// another one announces itself.
proof fn lemma_newest_stay(found: Seq<PeerKey>, r: Seq<PeerKey>, k: PeerKey, x: PeerKey)
    requires
        found.len() <= MAX_ADDRS,
        is_end_of(found, r),
        found.contains(x),
        x != k,
        newest(without_peer(r, k).push(k)).contains(x),
    ensures
        with_peer(found, MAX_ADDRS as nat, k).contains(x),
{
    let w = without_peer(found, k).push(k);
    let after = without_peer(r, k).push(k);
    lemma_without_peer(found, k);
    assert(without_peer(found, k).contains(x));
    let q = choose|q: int| 0 <= q < without_peer(found, k).len() && without_peer(found, k)[q] == x;
    assert(w[q] == x);
    lemma_announcement_keeps_end(found, r, MAX_ADDRS as nat, k);
    if w.len() > MAX_ADDRS {
        let t = with_peer(found, MAX_ADDRS as nat, k);
        assert(t.len() == MAX_ADDRS);
        assert(newest(after) =~= t);
    }
}

/// If there was room for a name up to an event, there was room for it up to
/// the event before.
proof fn lemma_room_before(events: Seq<Event>, h: int, i: int, name: Seq<char>)
    requires
        0 <= h < i <= events.len(),
        kept_room(events, h, i, name),
    ensures
        kept_room(events, h, i - 1, name),
{
    assert forall|j: int|
        h < j <= i - 1 && (j < i - 1 ==> bears(name)(events[j])) implies #[trigger] others_since(
        events.take(j),
        name,
    ).len() < MAX_NAMES by {
        if j == i - 1 && !bears(name)(events[j]) {
            assert(others_since(events.take(i), name).len() < MAX_NAMES);
            lemma_others_grow(events, i, name);
        }
    }
}

/// An address that announced itself did so for a last time.
proof fn lemma_there_is_a_last(
    events: Seq<Event>,
    j: int,
    i: int,
    name: Seq<char>,
    k: PeerKey,
) -> (h: int)
    requires
        0 <= j < i <= events.len(),
        announces(events[j], name, k),
    ensures
        last_heard(events, h, i, name, k),
        j <= h,
    decreases i,
{
    if announces(events[i - 1], name, k) {
        i - 1
    } else {
        lemma_there_is_a_last(events, j, i - 1, name, k)
    }
}

/// An announcement under a name keeps the newest addresses that were heard in
/// time.
proof fn lemma_own_announcement_keeps_living(
    states: Seq<ServerView>,
    events: Seq<Event>,
    at: Seq<int>,
    i: int,
    n: NamedEvent,
    x: PeerKey,
)
    requires
        run(states, events),
        on_time(states, events, at),
        0 <= i < events.len(),
        events[i] == Event::Named(n),
        newest(recency(events.take(i + 1), n.name)).contains(x),
        x != n.from.spec_key(),
        peers_of(states[i].entries, n.name).contains(x),
        heard_from(events, at, i, n.name, x, at[i]),
    ensures
        peers_of(states[i + 1].entries, n.name).contains(x),
{
    let rest = recency(events.take(i), n.name);
    assert(events.take(i + 1).drop_last() =~= events.take(i));
    assert(events.take(i + 1).last() == events[i]);
    assert(handled(states[i], states[i + 1], events[i]));
    law_registry_is_always_proper(states, events, i);
    lemma_named_event(states[i], states[i + 1], n);
    lemma_living_are_found(states[i].entries, events, at, i, n, x);
    law_most_recent_addresses_are_remembered(states, events, i, n.name);
    lemma_found_is_end(states[i].entries, n, rest);
    lemma_newest_stay(n.found, rest, n.from.spec_key(), x);
}

/// Another event keeps what is remembered for a name that is not crowded out.
proof fn lemma_other_event_keeps_peers(
    states: Seq<ServerView>,
    events: Seq<Event>,
    i: int,
    name: Seq<char>,
)
    requires
        run(states, events),
        0 <= i < events.len(),
        !bears(name)(events[i]),
        was_heard(events.take(i + 1), name),
        others_since(events.take(i + 1), name).len() < MAX_NAMES,
    ensures
        peers_of(states[i + 1].entries, name) == peers_of(states[i].entries, name),
{
    law_name_stays_while_there_is_room(states, events, i + 1, name);
    law_registry_is_always_proper(states, events, i);
    assert(handled(states[i], states[i + 1], events[i]));
    match events[i] {
        Event::Named(n) => {
            lemma_named_event(states[i], states[i + 1], n);
        },
        _ => {},
    }
}

/// An address that was heard in time, is among the newest under a name and had
/// its name kept since is remembered.
proof fn lemma_living_are_remembered(
    states: Seq<ServerView>,
    events: Seq<Event>,
    at: Seq<int>,
    h: int,
    i: int,
    name: Seq<char>,
    t: int,
    x: PeerKey,
)
    requires
        run(states, events),
        on_time(states, events, at),
        0 <= h < i <= events.len(),
        announces(events[h], name, x),
        t - at[h] <= ADDR_EXPIRE_SECONDS * NANOS_PER_SEC,
        forall|j: int| 0 <= j < i ==> #[trigger] at[j] <= t,
        kept_room(events, h, i, name),
        newest(recency(events.take(i), name)).contains(x),
    ensures
        peers_of(states[i].entries, name).contains(x),
    decreases i,
{
    let e = events[i - 1];
    let rest = recency(events.take(i - 1), name);
    assert(events.take(i).drop_last() =~= events.take(i - 1));
    assert(events.take(i).last() == e);
    assert(at[i - 1] <= t);
    lemma_room_before(events, h, i, name);
    if announces(e, name, x) {
        let n = e->Named_0;
        law_registry_is_always_proper(states, events, i - 1);
        assert(handled(states[i - 1], states[i], e));
        lemma_named_event(states[i - 1], states[i], n);
        law_announced_peer_is_youngest(n.found, MAX_ADDRS as nat, x);
        let p = peers_of(states[i].entries, name);
        assert(p[p.len() - 1] == x);
    } else if bears(name)(e) {
        let n = e->Named_0;
        assert(heard_from(events, at, i - 1, name, x, at[i - 1]));
        lemma_recency_has_no_repeats(events.take(i - 1), name);
        lemma_newest_before(rest, n.from.spec_key(), x);
        lemma_living_are_remembered(states, events, at, h, i - 1, name, t, x);
        lemma_own_announcement_keeps_living(states, events, at, i - 1, n, x);
    } else {
        lemma_living_are_remembered(states, events, at, h, i - 1, name, t, x);
        assert(bears(name)(events.take(i)[h]));
        assert(others_since(events.take(i), name).len() < MAX_NAMES);
        lemma_other_event_keeps_peers(states, events, i - 1, name);
    }
}

/// An address that is remembered and was heard in time is found.
proof fn lemma_living_are_found(
    s: Seq<NameEntry>,
    events: Seq<Event>,
    at: Seq<int>,
    i: int,
    n: NamedEvent,
    x: PeerKey,
)
    requires
        found_in_time(s, events, at, i, n),
        peers_of(s, n.name).contains(x),
        heard_from(events, at, i, n.name, x, at[i]),
    ensures
        n.found.contains(x),
{
    reveal(found_in_time);
    let p = peers_of(s, n.name);
    let alive = still_alive(events, at, i, n.name, at[i]);
    let j0 = choose|j: int|
        0 <= j < i && announces(#[trigger] events[j], n.name, x) && at[i] - at[j]
            <= ADDR_EXPIRE_SECONDS * NANOS_PER_SEC;
    assert(bears(n.name)(events[j0]));
    assert(heard(events, at, i, n.name, at[i]));
    let d = choose|d: int|
        0 <= d <= p.len() && n.found == #[trigger] p.skip(d) && forall|y: int|
            0 <= y < d ==> !alive(#[trigger] p[y]);
    let c = choose|c: int| 0 <= c < p.len() && p[c] == x;
    assert(alive(p[c]));
    assert(n.found[c - d] == x);
}

/// Those that are told are the others that were found and heard in time.
proof fn lemma_living_are_told(
    s: Seq<NameEntry>,
    events: Seq<Event>,
    at: Seq<int>,
    i: int,
    n: NamedEvent,
)
    requires
        found_in_time(s, events, at, i, n),
    ensures
        n.targets == targets_among(
            n.found.filter(still_alive(events, at, i, n.name, at[i])),
            n.from,
        ),
{
    reveal(found_in_time);
}

/// Of the newest addresses under a name, those that were heard in time but
/// were not found are the sender.
proof fn lemma_only_the_sender_is_missed(
    states: Seq<ServerView>,
    events: Seq<Event>,
    at: Seq<int>,
    i: int,
    n: NamedEvent,
    x: PeerKey,
)
    requires
        run(states, events),
        on_time(states, events, at),
        0 <= i < events.len(),
        events[i] == Event::Named(n),
        nobody_crowded_out(events, at, i, n),
        newest(recency(events.take(i), n.name)).contains(x),
        heard_from(events, at, i, n.name, x, at[i]),
        x != n.from.spec_key(),
    ensures
        n.found.contains(x),
{
    let j = choose|j: int|
        0 <= j < i && announces(#[trigger] events[j], n.name, x) && at[i] - at[j]
            <= ADDR_EXPIRE_SECONDS * NANOS_PER_SEC;
    let h = lemma_there_is_a_last(events, j, i, n.name, x);
    assert(at[j] <= at[h]);
    assert forall|g: int| 0 <= g < i implies #[trigger] at[g] <= at[i] by {}
    lemma_living_are_remembered(states, events, at, h, i, n.name, at[i], x);
    lemma_living_are_found(states[i].entries, events, at, i, n, x);
}

/// A message goes to those that announced themselves under its name most
/// recently, up to as many as there is room for, of whom each announced itself
/// no longer ago than addresses are remembered, from the oldest to the
/// youngest, its sender left out.
pub proof fn law_recent_others_are_told_in_time(
    states: Seq<ServerView>,
    events: Seq<Event>,
    at: Seq<int>,
    i: int,
    n: NamedEvent,
)
    requires
        run(states, events),
        on_time(states, events, at),
        0 <= i < events.len(),
        events[i] == Event::Named(n),
        nobody_crowded_out(events, at, i, n),
    ensures
        n.targets == targets_among(
            newest(recency(events.take(i), n.name)).filter(
                still_alive(events, at, i, n.name, at[i]),
            ),
            n.from,
        ),
{
    let name = n.name;
    let own = n.from.spec_key();
    let alive = still_alive(events, at, i, name, at[i]);
    let r = recency(events.take(i), name);
    let s = newest(r);
    assert(handled(states[i], states[i + 1], events[i]));
    lemma_living_are_told(states[i].entries, events, at, i, n);
    law_registry_is_always_proper(states, events, i);
    lemma_named_event(states[i], states[i + 1], n);
    law_most_recent_addresses_are_remembered(states, events, i, name);
    lemma_found_is_end(states[i].entries, n, r);
    lemma_recency_has_no_repeats(events.take(i), name);
    let cut = s.len() - n.found.len();
    let head = s.take(cut);
    assert(s =~= head + n.found);
    assert forall|c: int| 0 <= c < head.len() && alive(#[trigger] head[c]) implies head[c]
        == own by {
        let x = head[c];
        if x != own {
            assert(s[c] == x);
            assert(s.contains(x));
            lemma_only_the_sender_is_missed(states, events, at, i, n, x);
            let d = choose|d: int| 0 <= d < n.found.len() && n.found[d] == x;
            assert(s[cut + d] == x);
            let low = r.len() - s.len();
            assert(r[low + c] == x && r[low + cut + d] == x);
        }
    }
    Seq::filter_distributes_over_add(head, n.found, alive);
    let missed = head.filter(alive);
    let found = n.found.filter(alive);
    Seq::filter_distributes_over_add(missed, found, other_peer(own));
    assert forall|c: int| 0 <= c < missed.len() implies !other_peer(own)(#[trigger] missed[c]) by {
        lemma_filter_in_order(head, alive);
        let pos = choose|pos: Seq<int>| picks(missed, head, pos);
        head.lemma_filter_pred(alive, c);
        assert(head[pos[c]] == missed[c]);
    }
    lemma_filter_drops_all(missed, other_peer(own));
    assert((missed + found).filter(other_peer(own)) =~= found.filter(other_peer(own)));
}

/// Who is told of an announcement: an address other than the sender that is
/// among those that announced themselves under the name most recently, and did
/// so no longer ago than addresses are remembered; and nobody else. These are
/// never more than there is room for under a name.
pub proof fn law_who_is_told_in_time(
    states: Seq<ServerView>,
    events: Seq<Event>,
    at: Seq<int>,
    i: int,
    n: NamedEvent,
    a: SocketAddr,
)
    requires
        run(states, events),
        on_time(states, events, at),
        0 <= i < events.len(),
        events[i] == Event::Named(n),
        nobody_crowded_out(events, at, i, n),
    ensures
        n.targets.contains(a) <==> a != n.from && newest(
            recency(events.take(i), n.name),
        ).contains(a.spec_key()) && heard_from(events, at, i, n.name, a.spec_key(), at[i]),
        n.targets.len() <= MAX_ADDRS,
{
    let k = a.spec_key();
    let alive = still_alive(events, at, i, n.name, at[i]);
    let r = recency(events.take(i), n.name);
    law_silent_addresses_are_not_told(states, events, at, i, n, a);
    law_key_determines_address(a);
    law_key_determines_address(n.from);
    assert(handled(states[i], states[i + 1], events[i]));
    lemma_living_are_told(states[i].entries, events, at, i, n);
    law_registry_is_always_proper(states, events, i);
    lemma_named_event(states[i], states[i + 1], n);
    law_most_recent_addresses_are_remembered(states, events, i, n.name);
    lemma_found_is_end(states[i].entries, n, r);
    lemma_living_keys(n.found, alive);
    law_message_goes_to_all_others(n.found.filter(alive), n.from, a);
    if n.targets.contains(a) {
        let c = choose|c: int| 0 <= c < n.found.len() && n.found[c] == k;
        let s = newest(r);
        assert(s[s.len() - n.found.len() + c] == k);
    }
    if a != n.from && newest(r).contains(k) && heard_from(events, at, i, n.name, k, at[i]) {
        lemma_only_the_sender_is_missed(states, events, at, i, n, k);
        let c = choose|c: int| 0 <= c < n.found.len() && n.found[c] == k;
        assert(alive(n.found[c]));
        n.found.lemma_filter_contains(alive, c);
    }
}

/// An address that has been silent under a name for longer than addresses are
/// remembered is not told of an announcement, and no more are told than there
/// is room for under a name, whatever happened.
pub proof fn law_silent_addresses_are_not_told(
    states: Seq<ServerView>,
    events: Seq<Event>,
    at: Seq<int>,
    i: int,
    n: NamedEvent,
    a: SocketAddr,
)
    requires
        run(states, events),
        on_time(states, events, at),
        0 <= i < events.len(),
        events[i] == Event::Named(n),
    ensures
        !heard_from(events, at, i, n.name, a.spec_key(), at[i]) ==> !n.targets.contains(a),
        n.targets.contains(a) ==> n.found.contains(a.spec_key()),
        n.targets.len() <= MAX_ADDRS,
{
    let alive = still_alive(events, at, i, n.name, at[i]);
    let live = n.found.filter(alive);
    assert(handled(states[i], states[i + 1], events[i]));
    lemma_living_are_told(states[i].entries, events, at, i, n);
    law_registry_is_always_proper(states, events, i);
    lemma_named_event(states[i], states[i + 1], n);
    lemma_living_keys(n.found, alive);
    law_message_goes_to_all_others(live, n.from, a);
    lemma_filter_in_order(n.found, alive);
    law_message_goes_to_each_once(live, n.found, n.from);
    if n.targets.contains(a) {
        let c = choose|c: int| 0 <= c < live.len() && live[c] == a.spec_key();
        assert(live.contains(live[c]));
        assert(alive(live[c]));
    }
}

/// Those of a proper list of addresses of which something holds are addresses
/// out of that list, and that holds of them.
proof fn lemma_living_keys(s: Seq<PeerKey>, alive: spec_fn(PeerKey) -> bool)
    requires
        peers_wf(s, MAX_ADDRS as nat),
    ensures
        forall|c: int|
            0 <= c < s.filter(alive).len() ==> is_peer_key(#[trigger] s.filter(alive)[c])
                && s.contains(s.filter(alive)[c]) && alive(s.filter(alive)[c]),
{
    lemma_filter_in_order(s, alive);
    let pos = choose|pos: Seq<int>| picks(s.filter(alive), s, pos);
    assert forall|c: int| 0 <= c < s.filter(alive).len() implies is_peer_key(
        #[trigger] s.filter(alive)[c],
    ) && s.contains(s.filter(alive)[c]) && alive(s.filter(alive)[c]) by {
        s.lemma_filter_pred(alive, c);
        assert(s[pos[c]] == s.filter(alive)[c]);
    }
}

/// Each announcement of an address starts its time anew: what was heard of it
/// before makes no difference.
pub proof fn law_each_announcement_starts_anew(
    events: Seq<Event>,
    at: Seq<int>,
    h: int,
    i: int,
    name: Seq<char>,
    k: PeerKey,
    t: int,
)
    requires
        i <= at.len(),
        forall|a: int, b: int| 0 <= a <= b < at.len() ==> #[trigger] at[a] <= #[trigger] at[b],
        last_heard(events, h, i, name, k),
    ensures
        heard_from(events, at, i, name, k, t) <==> t - at[h] <= ADDR_EXPIRE_SECONDS * NANOS_PER_SEC,
        heard_from(events, at, i, name, k, t) <==> t - at[h] <= 120_000_000_000,
{
    if heard_from(events, at, i, name, k, t) {
        let j = choose|j: int|
            0 <= j < i && announces(#[trigger] events[j], name, k) && t - at[j]
                <= ADDR_EXPIRE_SECONDS * NANOS_PER_SEC;
        assert(j <= h);
        assert(at[j] <= at[h]);
    }
}

/// In a history that is no longer than addresses are remembered, nothing
/// expires.
pub proof fn law_nothing_expires_in_a_short_history(
    states: Seq<ServerView>,
    events: Seq<Event>,
    at: Seq<int>,
)
    requires
        run(states, events),
        on_time(states, events, at),
        forall|i: int, j: int|
            0 <= i <= j < at.len() ==> #[trigger] at[j] - #[trigger] at[i] <= ADDR_EXPIRE_SECONDS
                * NANOS_PER_SEC,
    ensures
        nothing_expired(states, events),
{
    assert forall|i: int| 0 <= i < events.len() implies match #[trigger] events[i] {
        Event::Named(n) => {
            &&& n.found == peers_of(states[i].entries, n.name)
            &&& n.targets == targets_among(n.found, n.from)
        },
        _ => true,
    } by {
        match events[i] {
            Event::Named(n) => {
                let p = peers_of(states[i].entries, n.name);
                assert(handled(states[i], states[i + 1], events[i]));
                assert forall|c: int| 0 <= c < p.len() implies heard_from(
                    events,
                    at,
                    i,
                    n.name,
                    #[trigger] p[c],
                    at[i],
                ) by {
                    lemma_remembered_were_heard_early(states, events, at, i, n.name, c);
                }
                if p.len() > 0 {
                    lemma_remembered_were_heard_early(states, events, at, i, n.name, 0);
                }
                lemma_all_living_are_found(states[i].entries, events, at, i, n);
            },
            _ => {},
        }
    }
}

/// Where all that is remembered for a name was heard in time, all of it is
/// found, and all others are told.
proof fn lemma_all_living_are_found(
    s: Seq<NameEntry>,
    events: Seq<Event>,
    at: Seq<int>,
    i: int,
    n: NamedEvent,
)
    requires
        found_in_time(s, events, at, i, n),
        n.is_new ==> n.found == Seq::<PeerKey>::empty(),
        forall|c: int|
            0 <= c < peers_of(s, n.name).len() ==> heard_from(
                events,
                at,
                i,
                n.name,
                #[trigger] peers_of(s, n.name)[c],
                at[i],
            ),
        peers_of(s, n.name).len() > 0 ==> heard(events, at, i, n.name, at[i]),
    ensures
        n.found == peers_of(s, n.name),
        n.targets == targets_among(n.found, n.from),
{
    reveal(found_in_time);
    let p = peers_of(s, n.name);
    let alive = still_alive(events, at, i, n.name, at[i]);
    if n.is_new {
        assert(p.len() == 0);
    } else {
        let d = choose|d: int|
            0 <= d <= p.len() && n.found == #[trigger] p.skip(d) && forall|x: int|
                0 <= x < d ==> !alive(#[trigger] p[x]);
        if d > 0 {
            assert(alive(p[0]));
        }
    }
    assert(n.found =~= p);
    assert forall|c: int| 0 <= c < n.found.len() implies alive(#[trigger] n.found[c]) by {}
    lemma_filter_keeps_all(n.found, alive);
}

/// In a history that is no longer than addresses are remembered, what is
/// remembered for a name was heard in time.
proof fn lemma_remembered_were_heard_early(
    states: Seq<ServerView>,
    events: Seq<Event>,
    at: Seq<int>,
    i: int,
    name: Seq<char>,
    c: int,
)
    requires
        run(states, events),
        at.len() == events.len(),
        forall|i: int, j: int|
            0 <= i <= j < at.len() ==> #[trigger] at[j] - #[trigger] at[i] <= ADDR_EXPIRE_SECONDS
                * NANOS_PER_SEC,
        0 <= i < events.len(),
        0 <= c < peers_of(states[i].entries, name).len(),
    ensures
        heard_from(events, at, i, name, peers_of(states[i].entries, name)[c], at[i]),
        heard(events, at, i, name, at[i]),
{
    let p = peers_of(states[i].entries, name);
    law_registry_is_always_proper(states, events, i);
    law_most_recent_addresses_are_remembered(states, events, i, name);
    lemma_entry_of(states[i].entries, MAX_NAMES as nat, name);
    let r = recency(events.take(i), name);
    let a = spec_addr_of_key(p[c]);
    assert(r[r.len() - p.len() + c] == p[c]);
    law_address_determines_key(p[c]);
    lemma_recency_was_announced(events.take(i), name, a);
    let j = choose|j: int|
        0 <= j < i && (#[trigger] events.take(i)[j] matches Event::Named(m) && m.name == name
            && m.from == a);
    assert(announces(events[j], name, p[c]));
    assert(bears(name)(events[j]));
    assert(at[i] - at[j] <= ADDR_EXPIRE_SECONDS * NANOS_PER_SEC);
}

/// Filtering by what holds of no entry leaves none.
proof fn lemma_filter_drops_all<A>(s: Seq<A>, pred: spec_fn(A) -> bool)
    requires
        forall|i: int| 0 <= i < s.len() ==> !pred(#[trigger] s[i]),
    ensures
        s.filter(pred) == Seq::<A>::empty(),
    decreases s.len(),
{
    reveal(Seq::filter);
    if s.len() > 0 {
        assert forall|i: int| 0 <= i < s.drop_last().len() implies !pred(
            #[trigger] s.drop_last()[i],
        ) by {
            assert(!pred(s[i]));
        }
        lemma_filter_drops_all(s.drop_last(), pred);
        assert(!pred(s[s.len() - 1]));
    }
}

} // verus!
