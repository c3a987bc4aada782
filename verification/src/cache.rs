//! The two time-limited caches of the rendezvous server: the addresses that
//! announced themselves under one name, and the names with their addresses.
//!
//! Both are `ttl_cache::TtlCache` values. An entry leaves such a cache when
//! its time to live is over, when it is removed, or when it is the oldest one
//! and another entry needs its place. The clock is not modelled here: which
//! entries have outlived their time is left open, and what is stated holds
//! whatever the clock says.
use crate::addr::PeerKey;
use std::time::Duration;
use ttl_cache::TtlCache;
use vstd::prelude::*;

verus! {

/// How many names the server remembers.
pub const MAX_NAMES: usize = 1024;

/// How many addresses the server remembers for each name.
pub const MAX_ADDRS: usize = 16;

/// For how long a name is remembered after its last announcement.
pub const NAME_EXPIRE_SECONDS: u64 = 120;

/// For how long an address is remembered after its last announcement.
pub const ADDR_EXPIRE_SECONDS: u64 = 120;

/// `ttl_cache::TtlCache`, a hash map that also keeps its entries in the order
/// in which they were last inserted.
#[verifier::external_type_specification]
#[verifier::external_body]
#[verifier::reject_recursive_types(K)]
#[verifier::reject_recursive_types(V)]
#[verifier::reject_recursive_types(S)]
pub struct ExTtlCache<K: Eq + std::hash::Hash, V, S: std::hash::BuildHasher>(TtlCache<K, V, S>);

/// The addresses that announced themselves under one name.
pub type Peers = TtlCache<PeerKey, ()>;

/// The names, each with its addresses.
pub type Registry = TtlCache<String, TtlCache<PeerKey, ()>>;

/// What the registry holds for one name: the name, the addresses under it from
/// the oldest to the youngest, and how many of them there is room for.
pub type NameEntry = (Seq<char>, (Seq<PeerKey>, nat));

/// The keys that a cache of addresses holds, from the oldest to the youngest.
/// Keys whose time is over count for as long as they have not been dropped.
pub uninterp spec fn peer_entries(c: Peers) -> Seq<PeerKey>;

/// How many addresses the cache was made for.
pub uninterp spec fn peer_limit(c: Peers) -> nat;

/// What a registry holds, from the oldest name to the youngest, names whose
/// time is over included for as long as they have not been dropped.
pub uninterp spec fn registry_entries(c: Registry) -> Seq<(Seq<char>, (Seq<PeerKey>, nat))>;

/// How many names the registry was made for.
pub uninterp spec fn registry_limit(c: Registry) -> nat;

/// Every key but `k`.
pub open spec fn other_peer(k: PeerKey) -> spec_fn(PeerKey) -> bool {
    |x: PeerKey| x != k
}

/// Every entry but those for `name`.
pub open spec fn other_name(name: Seq<char>) -> spec_fn(NameEntry) -> bool {
    |e: NameEntry| e.0 != name
}

/// The sequence without the given key.
pub open spec fn without_peer(s: Seq<PeerKey>, k: PeerKey) -> Seq<PeerKey> {
    s.filter(other_peer(k))
}

/// The sequence without what it holds for the given name.
pub open spec fn without_name(s: Seq<NameEntry>, name: Seq<char>) -> Seq<NameEntry> {
    s.filter(other_name(name))
}

/// The sequence, less its oldest entry if it has outgrown the limit.
pub open spec fn trimmed<A>(s: Seq<A>, limit: nat) -> Seq<A> {
    if s.len() > limit {
        s.drop_first()
    } else {
        s
    }
}

/// The addresses once `k` has announced itself: it is the youngest one.
pub open spec fn with_peer(s: Seq<PeerKey>, limit: nat, k: PeerKey) -> Seq<PeerKey> {
    trimmed(without_peer(s, k).push(k), limit)
}

/// The registry once `e` has been filed: it is the youngest entry.
pub open spec fn with_name(s: Seq<NameEntry>, limit: nat, e: NameEntry) -> Seq<NameEntry> {
    trimmed(without_name(s, e.0).push(e), limit)
}

/// Whether `r` is what `s` holds at the positions `at`, which go up.
pub open spec fn picks<A>(r: Seq<A>, s: Seq<A>, at: Seq<int>) -> bool {
    &&& at.len() == r.len()
    &&& forall|i: int| 0 <= i < r.len() ==> 0 <= #[trigger] at[i] < s.len() && r[i] == s[at[i]]
    &&& forall|i: int, j: int| 0 <= i < j < r.len() ==> #[trigger] at[i] < #[trigger] at[j]
}

/// Whether `r` is some of the entries of `s`, in their order.
pub open spec fn in_order_within<A>(r: Seq<A>, s: Seq<A>) -> bool {
    exists|at: Seq<int>| picks(r, s, at)
}

/// `TtlCache::new` for addresses: the cache is empty and has room for
/// `capacity` of them.
#[verifier::external_body]
pub(crate) fn peers_new(capacity: usize) -> (r: Peers)
    ensures
        peer_entries(r) == Seq::<PeerKey>::empty(),
        peer_limit(r) == capacity,
{
    TtlCache::new(capacity)
}

/// `TtlCache::iter` for addresses, and the walk over what it returns. Some of
/// the oldest entries are dropped from the cache, namely those whose time is
/// over. What comes out are keys that the cache still holds, from the oldest
/// to the youngest; a key whose time ends during the walk is passed over.
/// Which keys have outlived their time is left unsaid: the clock decides it.
#[verifier::external_body]
pub(crate) fn peers_iter(c: &mut Peers) -> (r: Vec<PeerKey>)
    ensures
        exists|n: int|
            0 <= n <= peer_entries(*old(c)).len() && peer_entries(*final(c)) == #[trigger] peer_entries(
                *old(c),
            ).skip(n),
        peer_limit(*final(c)) == peer_limit(*old(c)),
        in_order_within(r@, peer_entries(*final(c))),
{
    c.iter().map(|e| *e.0).collect()
}

/// `TtlCache::contains_key` for addresses: the cache holds the key, and the
/// key's time is not over. Of a key that it holds, whether its time is over is
/// left unsaid: the clock decides it.
#[verifier::external_body]
pub(crate) fn peers_contains_key(c: &Peers, k: &PeerKey) -> (r: bool)
    ensures
        r ==> peer_entries(*c).contains(*k),
{
    c.contains_key(k)
}

/// `TtlCache::insert` for addresses: the key becomes the youngest entry,
/// whether or not it was there before, and the oldest entry is dropped if the
/// cache has outgrown its limit. The key's time ends `ttl_secs` seconds after
/// the call. Adding a time to live to the clock panics where the sum cannot be
/// represented, so the one time to live that addresses have is asked for.
#[verifier::external_body]
pub(crate) fn peers_insert(c: &mut Peers, k: PeerKey, ttl_secs: u64)
    requires
        ttl_secs == ADDR_EXPIRE_SECONDS,
    ensures
        peer_entries(*final(c)) == with_peer(peer_entries(*old(c)), peer_limit(*old(c)), k),
        peer_limit(*final(c)) == peer_limit(*old(c)),
{
    c.insert(k, (), Duration::from_secs(ttl_secs));
}

/// `TtlCache::new` for names: the registry is empty and has room for
/// `capacity` of them.
#[verifier::external_body]
pub(crate) fn registry_new(capacity: usize) -> (r: Registry)
    ensures
        registry_entries(r) == Seq::<NameEntry>::empty(),
        registry_limit(r) == capacity,
{
    TtlCache::new(capacity)
}

/// `TtlCache::remove` for names: the name is gone from the registry. What was
/// held for it comes out, unless its time was over. Whether the time of a name
/// that is there was over is left unsaid: the clock decides it.
#[verifier::external_body]
pub(crate) fn registry_remove(c: &mut Registry, name: &String) -> (r: Option<Peers>)
    ensures
        registry_entries(*final(c)) == without_name(registry_entries(*old(c)), name@),
        registry_limit(*final(c)) == registry_limit(*old(c)),
        r matches Some(p) ==> registry_entries(*old(c)).contains(
            (name@, (peer_entries(p), peer_limit(p))),
        ),
{
    c.remove(name)
}

/// `TtlCache::insert` for names: the name becomes the youngest entry, whether
/// or not it was there before, and the oldest entry is dropped if the registry
/// has outgrown its limit. The name's time ends `ttl_secs` seconds after the
/// call. Adding a time to live to the clock panics where the sum cannot be
/// represented, so the one time to live that names have is asked for.
#[verifier::external_body]
pub(crate) fn registry_insert(c: &mut Registry, name: String, peers: Peers, ttl_secs: u64)
    requires
        ttl_secs == NAME_EXPIRE_SECONDS,
    ensures
        registry_entries(*final(c)) == with_name(
            registry_entries(*old(c)),
            registry_limit(*old(c)),
            (name@, (peer_entries(peers), peer_limit(peers))),
        ),
        registry_limit(*final(c)) == registry_limit(*old(c)),
{
    c.insert(name, peers, Duration::from_secs(ttl_secs));
}

/// Whether a lookup of a key in a cache of addresses came out as `r`. Two
/// lookups may come out differently, as the clock goes on in between.
pub closed spec fn looked_up(c: Peers, k: PeerKey, r: bool) -> bool {
    call_ensures(peers_contains_key, (&c, &k), r)
}

/// Whether a walk over a cache of addresses gave `r`. Two walks may give
/// different addresses, as the clock goes on in between.
pub closed spec fn walked_over(c: Peers, r: Vec<PeerKey>) -> bool {
    exists|m: &mut Peers| *m == c && #[trigger] call_ensures(peers_iter, (m,), r)
}

/// Whether taking a name out of a registry gave `r`. The clock decides whether
/// the time of a name that is there is over.
pub closed spec fn taken_out(c: Registry, name: String, r: Option<Peers>) -> bool {
    exists|m: &mut Registry| *m == c && #[trigger] call_ensures(registry_remove, (m, &name), r)
}

/// A lookup came out as `r` exactly if it returned that.
pub(crate) proof fn lemma_looked_up(c: Peers, k: PeerKey, r: bool)
    ensures
        looked_up(c, k, r) <==> call_ensures(peers_contains_key, (&c, &k), r),
{
}

/// A walk gave `r` exactly if it returned that.
pub(crate) proof fn lemma_walked_over(c: Peers, r: Vec<PeerKey>)
    ensures
        walked_over(c, r) <==> exists|m: &mut Peers|
            *m == c && #[trigger] call_ensures(peers_iter, (m,), r),
{
}

/// Taking a name out gave `r` exactly if it returned that.
pub(crate) proof fn lemma_taken_out(c: Registry, name: String, r: Option<Peers>)
    ensures
        taken_out(c, name, r) <==> exists|m: &mut Registry|
            *m == c && #[trigger] call_ensures(registry_remove, (m, &name), r),
{
}

/// How much the server remembers, and for how long: 1024 names, 16 addresses
/// for each, and both for two minutes.
pub proof fn law_what_the_server_can_remember()
    ensures
        MAX_NAMES == 1024,
        MAX_ADDRS == 16,
        NAME_EXPIRE_SECONDS == 120,
        ADDR_EXPIRE_SECONDS == 120,
{
}

} // verus!
