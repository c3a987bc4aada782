//! What the server keeps about names and addresses, and what every
//! announcement does to it.
use crate::addr::{is_peer_key, PeerKey};
use crate::cache::{
    in_order_within, other_name, other_peer, picks, with_name, with_peer, without_name,
    without_peer, NameEntry, MAX_ADDRS, MAX_NAMES,
};
use vstd::prelude::*;

verus! {

/// Whether a list of addresses is one that the server can hold for a name: it
/// fits, it lists no address twice, and it lists addresses only.
pub open spec fn peers_wf(s: Seq<PeerKey>, limit: nat) -> bool {
    &&& limit == MAX_ADDRS
    &&& s.len() <= limit
    &&& s.no_duplicates()
    &&& forall|i: int| 0 <= i < s.len() ==> is_peer_key(#[trigger] s[i])
}

/// Whether a list of entries is one that the server can hold: it fits, no name
/// has two entries, no name is empty, and each has a proper list of addresses.
pub open spec fn registry_wf(s: Seq<NameEntry>, limit: nat) -> bool {
    &&& limit == MAX_NAMES
    &&& s.len() <= limit
    &&& forall|i: int, j: int| 0 <= i < j < s.len() ==> #[trigger] s[i].0 != #[trigger] s[j].0
    &&& forall|i: int|
        0 <= i < s.len() ==> (#[trigger] s[i]).0.len() > 0 && peers_wf(s[i].1.0, s[i].1.1)
}

/// Whether the server holds an entry for a name.
pub open spec fn has_name(s: Seq<NameEntry>, name: Seq<char>) -> bool {
    exists|i: int| 0 <= i < s.len() && (#[trigger] s[i]).0 == name
}

/// The addresses under a name, from the oldest to the youngest; none if the
/// name has no entry.
pub open spec fn peers_of(s: Seq<NameEntry>, name: Seq<char>) -> Seq<PeerKey> {
    if has_name(s, name) {
        s[choose|i: int| 0 <= i < s.len() && (#[trigger] s[i]).0 == name].1.0
    } else {
        Seq::empty()
    }
}

/// Whether `found` can be what is found under a name that is announced. The
/// clock decides among the possibilities: the name may have outlived its time
/// and then counts as new, and so may some of the oldest addresses.
pub open spec fn may_find(
    s: Seq<NameEntry>,
    name: Seq<char>,
    found: Seq<PeerKey>,
    is_new: bool,
) -> bool {
    if is_new {
        found == Seq::<PeerKey>::empty()
    } else {
        has_name(s, name) && exists|n: int|
            0 <= n <= peers_of(s, name).len() && found == #[trigger] peers_of(s, name).skip(n)
    }
}

/// The entry of a name is the one that holds the addresses under it.
pub proof fn lemma_peers_of(s: Seq<NameEntry>, limit: nat, e: NameEntry)
    requires
        registry_wf(s, limit),
        s.contains(e),
    ensures
        has_name(s, e.0),
        peers_of(s, e.0) == e.1.0,
{
    let j = choose|j: int| 0 <= j < s.len() && s[j] == e;
    assert(s[j].0 == e.0);
    let i = choose|i: int| 0 <= i < s.len() && (#[trigger] s[i]).0 == e.0;
    if i < j {
        assert(s[i].0 != s[j].0);
    } else if j < i {
        assert(s[j].0 != s[i].0);
    }
}

/// A name that has an entry has one with the addresses under it.
pub proof fn lemma_entry_of(s: Seq<NameEntry>, limit: nat, name: Seq<char>)
    requires
        registry_wf(s, limit),
        has_name(s, name),
    ensures
        s.contains((name, (peers_of(s, name), MAX_ADDRS as nat))),
        peers_wf(peers_of(s, name), MAX_ADDRS as nat),
{
    let i = choose|i: int| 0 <= i < s.len() && (#[trigger] s[i]).0 == name;
    assert(s[i] == (name, (peers_of(s, name), MAX_ADDRS as nat)));
}

/// What can be found under a name is a proper list of addresses.
pub proof fn lemma_found_is_proper(
    s: Seq<NameEntry>,
    limit: nat,
    name: Seq<char>,
    found: Seq<PeerKey>,
    is_new: bool,
)
    requires
        registry_wf(s, limit),
        may_find(s, name, found, is_new),
    ensures
        peers_wf(found, MAX_ADDRS as nat),
{
    if !is_new {
        lemma_entry_of(s, limit, name);
        let n = choose|n: int|
            0 <= n <= peers_of(s, name).len() && found == #[trigger] peers_of(s, name).skip(n);
        lemma_dropping_oldest_keeps_peers_wf(peers_of(s, name), MAX_ADDRS as nat, n);
    }
}

/// Filtering keeps some of the entries, in their order.
pub proof fn lemma_filter_in_order<A>(s: Seq<A>, pred: spec_fn(A) -> bool)
    ensures
        in_order_within(s.filter(pred), s),
    decreases s.len(),
{
    reveal(Seq::filter);
    if s.len() == 0 {
        assert(picks(s.filter(pred), s, Seq::<int>::empty()));
    } else {
        let rest = s.drop_last();
        lemma_filter_in_order(rest, pred);
        let at = choose|at: Seq<int>| picks(rest.filter(pred), rest, at);
        if pred(s.last()) {
            assert(picks(s.filter(pred), s, at.push(s.len() - 1)));
        } else {
            assert(picks(s.filter(pred), s, at));
        }
    }
}

/// A key is left after another one is taken out exactly if it was there
/// before.
pub proof fn lemma_without_peer(s: Seq<PeerKey>, k: PeerKey)
    ensures
        forall|x: PeerKey| #[trigger]
            without_peer(s, k).contains(x) <==> s.contains(x) && x != k,
        s.no_duplicates() ==> without_peer(s, k).no_duplicates(),
        without_peer(s, k).len() <= s.len(),
        s.contains(k) ==> without_peer(s, k).len() < s.len(),
{
    let pred = other_peer(k);
    let r = without_peer(s, k);
    broadcast use Seq::lemma_filter_len, Seq::lemma_filter_pred, Seq::lemma_filter_contains;

    lemma_filter_in_order(s, pred);
    let at = choose|at: Seq<int>| picks(r, s, at);
    assert forall|x: PeerKey| #[trigger] r.contains(x) implies s.contains(x) && x != k by {
        let i = choose|i: int| 0 <= i < r.len() && r[i] == x;
        assert(s[at[i]] == x);
        assert(pred(r[i]));
    }
    assert forall|x: PeerKey| s.contains(x) && x != k implies #[trigger] r.contains(x) by {
        let i = choose|i: int| 0 <= i < s.len() && s[i] == x;
        assert(pred(s[i]));
    }
    if s.no_duplicates() {
        assert forall|i: int, j: int| 0 <= i < r.len() && 0 <= j < r.len() && i != j implies r[i]
            != r[j] by {
            assert(at[i] != at[j]);
        }
    }
    if s.contains(k) && r.len() == s.len() {
        lemma_picks_everything(r, s, at);
        let i = choose|i: int| 0 <= i < s.len() && s[i] == k;
        assert(pred(r[i]));
    }
}

/// Picking as many entries as there are picks each of them.
proof fn lemma_picks_everything<A>(r: Seq<A>, s: Seq<A>, at: Seq<int>)
    requires
        picks(r, s, at),
        r.len() == s.len(),
    ensures
        r == s,
{
    assert forall|i: int| 0 <= i < r.len() implies #[trigger] at[i] == i by {
        lemma_picks_bounds(r, s, at, i);
    }
    assert(r =~= s) by {
        assert forall|i: int| 0 <= i < r.len() implies r[i] == s[i] by {
            assert(at[i] == i);
        }
    }
}

/// No more entries are picked than there are.
pub proof fn lemma_picks_len<A>(r: Seq<A>, s: Seq<A>, at: Seq<int>)
    requires
        picks(r, s, at),
    ensures
        r.len() <= s.len(),
{
    if r.len() > 0 {
        lemma_picks_low(r, s, at, r.len() - 1);
    }
}

/// Entries picked from entries that were picked are picked from the whole.
pub proof fn lemma_in_order_within_is_transitive<A>(r: Seq<A>, s: Seq<A>, t: Seq<A>)
    requires
        in_order_within(r, s),
        in_order_within(s, t),
    ensures
        in_order_within(r, t),
{
    let a = choose|at: Seq<int>| picks(r, s, at);
    let b = choose|at: Seq<int>| picks(s, t, at);
    let c = Seq::new(r.len(), |i: int| b[a[i]]);
    assert forall|i: int| 0 <= i < r.len() implies 0 <= #[trigger] c[i] < t.len() && r[i]
        == t[c[i]] by {
        assert(0 <= a[i] < s.len());
        assert(0 <= b[a[i]] < t.len());
    }
    assert forall|i: int, j: int| 0 <= i < j < r.len() implies #[trigger] c[i]
        < #[trigger] c[j] by {
        assert(0 <= a[i] && a[i] < a[j] && a[j] < s.len());
        assert(b[a[i]] < b[a[j]]);
    }
    assert(picks(r, t, c));
}

/// The position of the entry picked after `i` others is `i` or later, and
/// leaves room for the entries picked after it.
proof fn lemma_picks_bounds<A>(r: Seq<A>, s: Seq<A>, at: Seq<int>, i: int)
    requires
        picks(r, s, at),
        0 <= i < r.len(),
    ensures
        i <= at[i] <= s.len() - (r.len() - i),
{
    lemma_picks_low(r, s, at, i);
    lemma_picks_high(r, s, at, i);
}

proof fn lemma_picks_low<A>(r: Seq<A>, s: Seq<A>, at: Seq<int>, i: int)
    requires
        picks(r, s, at),
        0 <= i < r.len(),
    ensures
        i <= at[i],
    decreases i,
{
    if i > 0 {
        lemma_picks_low(r, s, at, i - 1);
        assert(at[i - 1] < at[i]);
    }
}

proof fn lemma_picks_high<A>(r: Seq<A>, s: Seq<A>, at: Seq<int>, i: int)
    requires
        picks(r, s, at),
        0 <= i < r.len(),
    ensures
        at[i] <= s.len() - (r.len() - i),
    decreases r.len() - i,
{
    if i + 1 < r.len() {
        lemma_picks_high(r, s, at, i + 1);
        assert(at[i] < at[i + 1]);
    }
}

/// An entry for another name is left after a name is taken out exactly if it
/// was there before.
pub proof fn lemma_without_name(s: Seq<NameEntry>, name: Seq<char>)
    ensures
        forall|e: NameEntry| #[trigger]
            without_name(s, name).contains(e) <==> s.contains(e) && e.0 != name,
        in_order_within(without_name(s, name), s),
        without_name(s, name).len() <= s.len(),
        has_name(s, name) ==> without_name(s, name).len() < s.len(),
{
    let pred = other_name(name);
    let r = without_name(s, name);
    broadcast use Seq::lemma_filter_len, Seq::lemma_filter_pred, Seq::lemma_filter_contains;

    lemma_filter_in_order(s, pred);
    let at = choose|at: Seq<int>| picks(r, s, at);
    assert forall|e: NameEntry| #[trigger] r.contains(e) implies s.contains(e) && e.0 != name by {
        let i = choose|i: int| 0 <= i < r.len() && r[i] == e;
        assert(s[at[i]] == e);
        assert(pred(r[i]));
    }
    assert forall|e: NameEntry| s.contains(e) && e.0 != name implies #[trigger] r.contains(e) by {
        let i = choose|i: int| 0 <= i < s.len() && s[i] == e;
        assert(pred(s[i]));
    }
    if has_name(s, name) && r.len() == s.len() {
        lemma_picks_everything(r, s, at);
        let i = choose|i: int| 0 <= i < s.len() && (#[trigger] s[i]).0 == name;
        assert(pred(r[i]));
    }
}

/// What is left of a proper list of addresses when the oldest ones are dropped
/// is a proper list.
pub proof fn lemma_dropping_oldest_keeps_peers_wf(s: Seq<PeerKey>, limit: nat, n: int)
    requires
        peers_wf(s, limit),
        0 <= n <= s.len(),
    ensures
        peers_wf(s.skip(n), limit),
{
}

/// A list of addresses stays proper when an address announces itself.
pub proof fn law_announcement_keeps_peers_wf(s: Seq<PeerKey>, limit: nat, k: PeerKey)
    requires
        peers_wf(s, limit),
        is_peer_key(k),
    ensures
        peers_wf(with_peer(s, limit, k), limit),
{
    let r = without_peer(s, k);
    lemma_without_peer(s, k);
    assert forall|i: int| 0 <= i < r.len() implies is_peer_key(#[trigger] r[i]) by {
        assert(r.contains(r[i]));
        let j = choose|j: int| 0 <= j < s.len() && s[j] == r[i];
    }
    assert(!r.contains(k));
    let p = r.push(k);
    assert(p.no_duplicates()) by {
        assert forall|i: int, j: int| 0 <= i < p.len() && 0 <= j < p.len() && i != j implies p[i]
            != p[j] by {
            if i < r.len() {
                assert(r.contains(r[i]));
            }
            if j < r.len() {
                assert(r.contains(r[j]));
            }
        }
    }
}

/// The address that announces itself is known afterwards, as the youngest.
pub proof fn law_announced_peer_is_youngest(s: Seq<PeerKey>, limit: nat, k: PeerKey)
    requires
        peers_wf(s, limit),
    ensures
        with_peer(s, limit, k).len() > 0,
        with_peer(s, limit, k).last() == k,
{
    lemma_without_peer(s, k);
}

/// An address that announces itself makes another one leave only if the list
/// was full and did not hold the newcomer; then the oldest one leaves.
pub proof fn law_other_peers_stay(s: Seq<PeerKey>, limit: nat, k: PeerKey, x: PeerKey)
    requires
        peers_wf(s, limit),
        x != k,
    ensures
        with_peer(s, limit, k).contains(x) <==> s.contains(x) && (s.len() == limit && !s.contains(k)
            ==> x != s[0]),
{
    let r = without_peer(s, k);
    let p = r.push(k);
    lemma_without_peer(s, k);
    assert(p.contains(x) <==> r.contains(x)) by {
        if r.contains(x) {
            let i = choose|i: int| 0 <= i < r.len() && r[i] == x;
            assert(p[i] == x);
        }
        if p.contains(x) {
            let i = choose|i: int| 0 <= i < p.len() && p[i] == x;
            assert(r[i] == x);
        }
    }
    if p.len() > limit {
        assert(r.len() == s.len());
        lemma_filter_in_order(s, other_peer(k));
        let at = choose|at: Seq<int>| picks(r, s, at);
        lemma_picks_everything(r, s, at);
        let t = p.drop_first();
        assert(t =~= s.drop_first().push(k));
        if s.contains(x) && x != s[0] {
            let i = choose|i: int| 0 <= i < s.len() && s[i] == x;
            assert(t[i - 1] == x);
        }
        if t.contains(x) {
            let i = choose|i: int| 0 <= i < t.len() && t[i] == x;
            assert(s[i + 1] == x);
        }
    } else if s.len() == limit && !s.contains(k) {
        assert forall|i: int| 0 <= i < s.len() implies #[trigger] other_peer(k)(s[i]) by {
            assert(s.contains(s[i]));
        }
        lemma_filter_keeps_all(s, other_peer(k));
    }
}

/// Filtering by what holds of every entry changes nothing.
pub proof fn lemma_filter_keeps_all<A>(s: Seq<A>, pred: spec_fn(A) -> bool)
    requires
        forall|i: int| 0 <= i < s.len() ==> pred(#[trigger] s[i]),
    ensures
        s.filter(pred) == s,
    decreases s.len(),
{
    reveal(Seq::filter);
    if s.len() > 0 {
        assert forall|i: int| 0 <= i < s.drop_last().len() implies pred(
            #[trigger] s.drop_last()[i],
        ) by {
            assert(pred(s[i]));
        }
        lemma_filter_keeps_all(s.drop_last(), pred);
        assert(pred(s[s.len() - 1]));
        assert(s.drop_last().push(s.last()) =~= s);
    } else {
        assert(s.filter(pred) =~= s);
    }
}

/// The registry stays proper when a name is taken out.
pub proof fn law_removal_keeps_registry_wf(s: Seq<NameEntry>, limit: nat, name: Seq<char>)
    requires
        registry_wf(s, limit),
    ensures
        registry_wf(without_name(s, name), limit),
        !has_name(without_name(s, name), name),
{
    let r = without_name(s, name);
    lemma_without_name(s, name);
    let at = choose|at: Seq<int>| picks(r, s, at);
    assert forall|i: int, j: int| 0 <= i < j < r.len() implies #[trigger] r[i].0 != #[trigger] r[j].0 by {
        assert(at[i] < at[j]);
    }
    assert forall|i: int| 0 <= i < r.len() implies (#[trigger] r[i]).0.len() > 0 && peers_wf(
        r[i].1.0,
        r[i].1.1,
    ) by {
        assert(s[at[i]] == r[i]);
    }
    if has_name(r, name) {
        let i = choose|i: int| 0 <= i < r.len() && (#[trigger] r[i]).0 == name;
        assert(r.contains(r[i]));
    }
}

/// The registry stays proper when an entry is filed.
pub proof fn law_filing_keeps_registry_wf(s: Seq<NameEntry>, limit: nat, e: NameEntry)
    requires
        registry_wf(s, limit),
        e.0.len() > 0,
        peers_wf(e.1.0, e.1.1),
    ensures
        registry_wf(with_name(s, limit, e), limit),
{
    law_removal_keeps_registry_wf(s, limit, e.0);
    let r = without_name(s, e.0);
    let p = r.push(e);
    assert forall|i: int, j: int| 0 <= i < j < p.len() implies #[trigger] p[i].0 != #[trigger] p[j].0 by {
        assert(p[i] == r[i]);
        if j < r.len() {
            assert(p[j] == r[j]);
        }
    }
    assert forall|i: int| 0 <= i < p.len() implies (#[trigger] p[i]).0.len() > 0 && peers_wf(
        p[i].1.0,
        p[i].1.1,
    ) by {
        if i < r.len() {
            assert(p[i] == r[i]);
        }
    }
    if p.len() > limit {
        let t = p.drop_first();
        assert forall|i: int, j: int| 0 <= i < j < t.len() implies #[trigger] t[i].0 != #[trigger] t[j].0 by {
            assert(p[i + 1].0 != p[j + 1].0);
        }
        assert forall|i: int| 0 <= i < t.len() implies (#[trigger] t[i]).0.len() > 0 && peers_wf(
            t[i].1.0,
            t[i].1.1,
        ) by {
            assert(t[i] == p[i + 1]);
        }
    }
}

/// The entry that is filed is known afterwards, as the youngest, and it is the
/// only one for its name.
pub proof fn law_filed_entry_is_youngest(s: Seq<NameEntry>, limit: nat, e: NameEntry)
    requires
        registry_wf(s, limit),
        e.0.len() > 0,
        peers_wf(e.1.0, e.1.1),
    ensures
        with_name(s, limit, e).len() > 0,
        with_name(s, limit, e).last() == e,
        forall|f: NameEntry| #[trigger]
            with_name(s, limit, e).contains(f) && f.0 == e.0 ==> f == e,
{
    let w = with_name(s, limit, e);
    law_filing_keeps_registry_wf(s, limit, e);
    lemma_without_name(s, e.0);
    assert forall|f: NameEntry| #[trigger] w.contains(f) && f.0 == e.0 implies f == e by {
        let i = choose|i: int| 0 <= i < w.len() && w[i] == f;
        if i < w.len() - 1 {
            assert(w[i].0 != w[w.len() - 1].0);
        }
    }
}

/// Filing an entry makes the entry of another name leave only if the registry
/// was full and did not hold the filed name; then the oldest one leaves.
pub proof fn law_other_names_stay(s: Seq<NameEntry>, limit: nat, e: NameEntry, f: NameEntry)
    requires
        registry_wf(s, limit),
        f.0 != e.0,
    ensures
        with_name(s, limit, e).contains(f) <==> s.contains(f) && (s.len() == limit && !has_name(
            s,
            e.0,
        ) ==> f != s[0]),
{
    let r = without_name(s, e.0);
    let p = r.push(e);
    lemma_without_name(s, e.0);
    assert(p.contains(f) <==> r.contains(f)) by {
        if r.contains(f) {
            let i = choose|i: int| 0 <= i < r.len() && r[i] == f;
            assert(p[i] == f);
        }
        if p.contains(f) {
            let i = choose|i: int| 0 <= i < p.len() && p[i] == f;
            assert(r[i] == f);
        }
    }
    if p.len() > limit {
        assert(r.len() == s.len());
        let at = choose|at: Seq<int>| picks(r, s, at);
        lemma_picks_everything(r, s, at);
        let t = p.drop_first();
        assert(t =~= s.drop_first().push(e));
        if s.contains(f) && f != s[0] {
            let i = choose|i: int| 0 <= i < s.len() && s[i] == f;
            assert(t[i - 1] == f);
        }
        if t.contains(f) {
            let i = choose|i: int| 0 <= i < t.len() && t[i] == f;
            assert(s[i + 1] == f);
            assert(s[i + 1].0 != s[0].0);
        }
    } else if s.len() == limit && !has_name(s, e.0) {
        lemma_filter_keeps_all(s, other_name(e.0));
    }
}

/// That a name is out of the registry until its entry is filed again makes no
/// difference to what the registry holds then.
pub proof fn law_taking_out_and_filing_is_filing(s: Seq<NameEntry>, limit: nat, e: NameEntry)
    ensures
        with_name(without_name(s, e.0), limit, e) == with_name(s, limit, e),
{
    let r = without_name(s, e.0);
    lemma_without_name(s, e.0);
    assert forall|i: int| 0 <= i < r.len() implies other_name(e.0)(#[trigger] r[i]) by {
        assert(r.contains(r[i]));
    }
    lemma_filter_keeps_all(r, other_name(e.0));
}

} // verus!
