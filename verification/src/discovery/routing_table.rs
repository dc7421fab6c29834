//! Routes and advertisements by actor, and the actors seen under each topic.

use vstd::prelude::*;
use crate::bytes::id_eq;
use crate::keyed_map::{KeyedMap, MapKey, lemma_sorted_keys_distinct};
use crate::model::ActorID;
use crate::discovery::types::{
    DiscoveryAdvertisement, RouteEntry, EndpointHint, DiscoveryError, AdvertisementView, RouteView,
    adv_view, route_view, hints_view, adv_eq, copy_hints,
};

verus! {

pub const MAX_ROUTING_TABLE_ENTRIES: usize = 1024;
pub const MAX_ROUTE_HOPS: u8 = 16;

#[derive(Debug)]
pub struct RoutingTable {
    pub local_actor_id: ActorID,
    pub routes: KeyedMap<ActorID, RouteEntry>,
    pub advertisements: KeyedMap<ActorID, DiscoveryAdvertisement>,
    pub topic_subscriptions: KeyedMap<[u8; 32], Vec<ActorID>>,
}

/// The table's contents as plain values.
pub struct TableState {
    pub routes: Map<Seq<u8>, RouteView>,
    pub advs: Map<Seq<u8>, AdvertisementView>,
    pub topics: Map<Seq<u8>, Seq<ActorID>>,
}

/// The advertisements still valid at `cur`.
pub open spec fn live_advs(a: Map<Seq<u8>, AdvertisementView>, cur: u64) -> Map<Seq<u8>, AdvertisementView> {
    Map::new(|k: Seq<u8>| a.contains_key(k) && a[k].expires_at_epoch >= cur, |k: Seq<u8>| a[k])
}

/// The table after dropping the advertisements expired at `cur`, every expired
/// route and every route to an actor whose advertisement expired, and those actors
/// from every topic.
pub open spec fn pruned(s: TableState, cur: u64) -> TableState {
    let advs = live_advs(s.advs, cur);
    TableState {
        routes: Map::new(
            |k: Seq<u8>| s.routes.contains_key(k) && !(s.advs.contains_key(k) && s.advs[k].expires_at_epoch < cur)
                && s.routes[k].expires_at_epoch >= cur,
            |k: Seq<u8>| s.routes[k],
        ),
        advs,
        topics: s.topics.map_values(|v: Seq<ActorID>| v.filter(|x: ActorID| advs.contains_key(x@))),
    }
}

/// The direct one-hop route an advertisement establishes.
pub open spec fn direct_route(adv: DiscoveryAdvertisement) -> RouteView {
    RouteView {
        destination: adv.actor_id@,
        next_hop: adv.actor_id@,
        hop_count: 1,
        sequence: adv.sequence,
        expires_at_epoch: adv.expires_at_epoch,
        endpoint_hints: hints_view(adv.endpoint_hints@),
    }
}

/// The table after recording an accepted advertisement: its direct route, the
/// advertisement itself, and its actor under its topic (once).
pub open spec fn ingested(s: TableState, adv: DiscoveryAdvertisement) -> TableState {
    let t = adv.namespace_or_topic@;
    TableState {
        routes: s.routes.insert(adv.actor_id@, direct_route(adv)),
        advs: s.advs.insert(adv.actor_id@, adv_view(adv)),
        topics: if s.topics.contains_key(t) {
            if s.topics[t].contains(adv.actor_id) { s.topics } else { s.topics.insert(t, s.topics[t].push(adv.actor_id)) }
        } else {
            s.topics.insert(t, seq![adv.actor_id])
        },
    }
}

/// Keeps the actors that still have an advertisement.
fn retain_advertised(v: &Vec<ActorID>, advs: &KeyedMap<ActorID, DiscoveryAdvertisement>) -> (r: Vec<ActorID>)
    ensures
        r@ == v@.filter(|x: ActorID| advs@.contains_key(x@)),
{
    let ghost pred = |x: ActorID| advs@.contains_key(x@);
    let mut r: Vec<ActorID> = Vec::new();
    let mut i: usize = 0;
    while i < v.len()
        invariant
            i <= v@.len(),
            pred == (|x: ActorID| advs@.contains_key(x@)),
            r@ == v@.take(i as int).filter(pred),
        decreases v@.len() - i,
    {
        proof {
            assert(v@.take(i + 1) =~= v@.take(i as int).push(v@[i as int]));
            v@.take(i as int).lemma_filter_push(v@[i as int], pred);
        }
        if advs.contains_key(&v[i]) {
            r.push(v[i]);
        }
        i = i + 1;
    }
    assert(v@.take(v@.len() as int) =~= v@);
    r
}

/// Whether `x` occurs in `v`.
fn contains_actor(v: &Vec<ActorID>, x: &ActorID) -> (r: bool)
    ensures
        r == v@.contains(*x),
{
    let mut i: usize = 0;
    while i < v.len()
        invariant
            i <= v@.len(),
            forall|j: int| 0 <= j < i ==> v@[j] != *x,
        decreases v@.len() - i,
    {
        if id_eq(&v[i], x) {
            assert(v@[i as int] == *x);
            return true;
        }
        i = i + 1;
    }
    false
}

/// Drops the routes that expired before `cur`.
fn drop_expired_routes(routes: &mut KeyedMap<ActorID, RouteEntry>, cur: u64)
    ensures
        forall|k: Seq<u8>| #[trigger] final(routes)@.contains_key(k)
            == (old(routes)@.contains_key(k) && old(routes)@[k].expires_at_epoch >= cur),
        forall|k: Seq<u8>| #[trigger] final(routes)@.contains_key(k) ==> final(routes)@[k] == old(routes)@[k],
{
    let ghost m = routes@;
    let ghost ks = routes.keys();
    let ghost pred = |k: Seq<u8>| m[k].expires_at_epoch < cur;
    let n = routes.len();
    let mut expired: Vec<ActorID> = Vec::new();
    let mut i: usize = 0;
    while i < n
        invariant
            i <= n,
            n == ks.len(),
            ks == routes.keys(),
            m == routes@,
            pred == (|k: Seq<u8>| m[k].expires_at_epoch < cur),
            forall|k: int| 0 <= k < n ==> #[trigger] m.contains_key(ks[k]) && m[ks[k]] == routes.entries_view()[k].1,
            expired@.map_values(|a: ActorID| a@) == ks.take(i as int).filter(pred),
        decreases n - i,
    {
        let e = routes.value_at(i).expires_at_epoch;
        let k = *routes.key_at(i);
        proof {
            assert(ks.take(i + 1) =~= ks.take(i as int).push(ks[i as int]));
            ks.take(i as int).lemma_filter_push(ks[i as int], pred);
        }
        if e < cur {
            expired.push(k);
            assert(expired@.map_values(|a: ActorID| a@) =~= ks.take(i as int).filter(pred).push(ks[i as int]));
        }
        i = i + 1;
    }
    assert(ks.take(n as int) =~= ks);
    let ghost ids = expired@.map_values(|a: ActorID| a@);
    proof {
        assert forall|k: Seq<u8>| ids.contains(k) == (m.contains_key(k) && pred(k)) by {
            if ids.contains(k) {
                ks.lemma_filter_contains_rev(pred, k);
            }
            if m.contains_key(k) && pred(k) {
                assert(ks.contains(k));
                let w = choose|w: int| 0 <= w < ks.len() && ks[w] == k;
                ks.lemma_filter_contains(pred, w);
            }
        }
        assert(expired@.map_values(|x: ActorID| x.key_view()) =~= ids);
    }
    routes.remove_all(&expired);
}

impl RoutingTable {
    pub open spec fn state(&self) -> TableState {
        TableState {
            routes: self.routes@.map_values(|r: RouteEntry| route_view(r)),
            advs: self.advertisements@.map_values(|a: DiscoveryAdvertisement| adv_view(a)),
            topics: self.topic_subscriptions@.map_values(|v: Vec<ActorID>| v@),
        }
    }

    pub fn new(local_actor_id: ActorID) -> (r: Self)
        ensures
            r.local_actor_id == local_actor_id,
            r.routes@ == Map::<Seq<u8>, RouteEntry>::empty(),
            r.advertisements@ == Map::<Seq<u8>, DiscoveryAdvertisement>::empty(),
            r.topic_subscriptions@ == Map::<Seq<u8>, Vec<ActorID>>::empty(),
    {
        RoutingTable {
            local_actor_id,
            routes: KeyedMap::new(),
            advertisements: KeyedMap::new(),
            topic_subscriptions: KeyedMap::new(),
        }
    }

    /// Drops every advertisement and every route expired at `current_epoch`, the
    /// routes to the actors whose advertisement expired, and those actors from every
    /// topic list; returns how many advertisements were dropped.
    pub fn prune_expired_routes(&mut self, current_epoch: u64) -> (r: usize)
        ensures
            final(self).state() == pruned(old(self).state(), current_epoch),
            final(self).local_actor_id == old(self).local_actor_id,
            r == old(self).advertisements.keys().filter(
                |k: Seq<u8>| old(self).advertisements@[k].expires_at_epoch < current_epoch).len(),
    {
        let ghost s0 = self.state();
        let ghost m = self.advertisements@;
        let ghost ks = self.advertisements.keys();
        let ghost pred = |k: Seq<u8>| m[k].expires_at_epoch < current_epoch;
        let n = self.advertisements.len();
        let mut expired: Vec<ActorID> = Vec::new();
        let mut i: usize = 0;
        while i < n
            invariant
                i <= n,
                n == ks.len(),
                ks == self.advertisements.keys(),
                m == self.advertisements@,
                pred == (|k: Seq<u8>| m[k].expires_at_epoch < current_epoch),
                forall|k: int| 0 <= k < n ==> #[trigger] m.contains_key(ks[k]) && m[ks[k]] == self.advertisements.entries_view()[k].1,
                expired@.map_values(|a: ActorID| a@) == ks.take(i as int).filter(pred),
            decreases n - i,
        {
            let e = self.advertisements.value_at(i).expires_at_epoch;
            let k = *self.advertisements.key_at(i);
            proof {
                assert(ks.take(i + 1) =~= ks.take(i as int).push(ks[i as int]));
                ks.take(i as int).lemma_filter_push(ks[i as int], pred);
            }
            if e < current_epoch {
                expired.push(k);
                assert(expired@.map_values(|a: ActorID| a@) =~= ks.take(i as int).filter(pred).push(ks[i as int]));
            }
            i = i + 1;
        }
        assert(ks.take(n as int) =~= ks);
        let ghost ids = expired@.map_values(|a: ActorID| a@);
        proof {
            assert forall|k: Seq<u8>| ids.contains(k) == (m.contains_key(k) && pred(k)) by {
                if ids.contains(k) {
                    ks.lemma_filter_contains_rev(pred, k);
                }
                if m.contains_key(k) && pred(k) {
                    assert(ks.contains(k));
                    let w = choose|w: int| 0 <= w < ks.len() && ks[w] == k;
                    ks.lemma_filter_contains(pred, w);
                }
            }
        }
        let count = expired.len();
        self.advertisements.remove_all(&expired);
        self.routes.remove_all(&expired);
        drop_expired_routes(&mut self.routes, current_epoch);
        let ghost advs1 = self.advertisements@;
        proof {
            assert(expired@.map_values(|x: ActorID| x.key_view()) =~= ids);
            assert forall|k: Seq<u8>| #[trigger] self.advertisements@.contains_key(k)
                == (m.contains_key(k) && m[k].expires_at_epoch >= current_epoch) by {}
            assert(self.state().advs =~= live_advs(s0.advs, current_epoch));
            assert(self.state().routes =~= pruned(s0, current_epoch).routes);
        }
        let tks = self.topic_subscriptions.key_list();
        let ghost tm = self.topic_subscriptions@;
        let ghost tkeys = self.topic_subscriptions.keys();
        let ghost live = |x: ActorID| advs1.contains_key(x@);
        let ghost routes1 = self.routes@;
        proof {
            assert(live =~= (|x: ActorID| live_advs(s0.advs, current_epoch).contains_key(x@)));
        }
        let _ = self.topic_subscriptions.len();
        proof {
            lemma_sorted_keys_distinct(tkeys);
            assert forall|k: Seq<u8>| #[trigger] tm.contains_key(k) == tkeys.contains(k) by {
                if tkeys.contains(k) {
                    let w = choose|w: int| 0 <= w < tkeys.len() && tkeys[w] == k;
                    assert(tm.contains_key(tkeys[w]));
                }
            }
            assert(tkeys.take(0) =~= Seq::<Seq<u8>>::empty());
        }
        let tn = tks.len();
        let mut j: usize = 0;
        while j < tn
            invariant
                j <= tn,
                tn == tkeys.len(),
                tks@.map_values(|k: [u8; 32]| k@) == tkeys,
                forall|a: int, b: int| 0 <= a < b < tn ==> tkeys[a] != tkeys[b],
                forall|k: Seq<u8>| #[trigger] tm.contains_key(k) == tkeys.contains(k),
                self.advertisements@ == advs1,
                self.routes@ == routes1,
                self.local_actor_id == old(self).local_actor_id,
                live == (|x: ActorID| advs1.contains_key(x@)),
                forall|k: Seq<u8>| #[trigger] self.topic_subscriptions@.contains_key(k) == tm.contains_key(k),
                forall|k: Seq<u8>| #[trigger] self.topic_subscriptions@.contains_key(k) && !tkeys.take(j as int).contains(k)
                    ==> self.topic_subscriptions@[k] == tm[k],
                forall|k: Seq<u8>| #[trigger] self.topic_subscriptions@.contains_key(k) && tkeys.take(j as int).contains(k)
                    ==> self.topic_subscriptions@[k]@ == tm[k]@.filter(live),
            decreases tn - j,
        {
            let t = tks[j];
            let ghost kj = tkeys[j as int];
            proof {
                assert(t@ == kj);
                assert(tkeys.contains(kj));
                if tkeys.take(j as int).contains(kj) {
                    let w = choose|w: int| 0 <= w < j && #[trigger] tkeys.take(j as int)[w] == kj;
                    assert(tkeys[w] == tkeys[j as int]);
                }
                assert forall|k: Seq<u8>| #[trigger] tkeys.take(j + 1).contains(k) == (tkeys.take(j as int).contains(k) || k == kj) by {
                    if tkeys.take(j + 1).contains(k) && k != kj {
                        let w = choose|w: int| 0 <= w < j + 1 && #[trigger] tkeys.take(j + 1)[w] == k;
                        assert(tkeys.take(j as int)[w] == k);
                    }
                    if tkeys.take(j as int).contains(k) {
                        let w = choose|w: int| 0 <= w < j && #[trigger] tkeys.take(j as int)[w] == k;
                        assert(tkeys.take(j + 1)[w] == k);
                    }
                    if k == kj {
                        assert(tkeys.take(j + 1)[j as int] == k);
                    }
                }
            }
            match self.topic_subscriptions.remove(&t) {
                Some(v) => {
                    let nv = retain_advertised(&v, &self.advertisements);
                    self.topic_subscriptions.insert(t, nv);
                }
                None => {
                    assert(false);
                }
            }
            j = j + 1;
        }
        proof {
            assert(tkeys.take(tn as int) =~= tkeys);
            assert(self.state().topics =~= pruned(s0, current_epoch).topics);
            assert(self.state().advs =~= pruned(s0, current_epoch).advs);
            assert(self.state().routes =~= pruned(s0, current_epoch).routes);
        }
        count
    }
    /// Validates an advertisement (signature present, inside its validity window, not
    /// older than the one on file) and records it with its direct route and topic;
    /// `Ok(false)` for an exact repeat. A table at capacity is pruned first and refuses
    /// a new actor if still full.
    pub fn ingest_advertisement(&mut self, adv: DiscoveryAdvertisement, current_epoch: u64) -> (r: Result<bool, DiscoveryError>)
        ensures
            final(self).local_actor_id == old(self).local_actor_id,
            ({
                let s0 = old(self).state();
                let id = adv.actor_id@;
                let signed = adv.signature@.len() > 0;
                let in_window = signed && adv.not_before_epoch <= current_epoch && current_epoch <= adv.expires_at_epoch;
                let known = s0.advs.contains_key(id);
                let stale = known && adv.sequence < s0.advs[id].sequence;
                let dup = known && adv_view(adv) == s0.advs[id];
                let full = s0.advs.dom().len() >= MAX_ROUTING_TABLE_ENTRIES && !known;
                let base = if full { pruned(s0, current_epoch) } else { s0 };
                let refused = full && base.advs.dom().len() >= MAX_ROUTING_TABLE_ENTRIES;
                &&& !signed ==> r == Err::<bool, DiscoveryError>(DiscoveryError::SignatureInvalid) && final(self).state() == s0
                &&& signed && current_epoch < adv.not_before_epoch ==> r == Err::<bool, DiscoveryError>(
                        DiscoveryError::PrematureAdvertisement { current_epoch, not_before: adv.not_before_epoch })
                    && final(self).state() == s0
                &&& signed && adv.not_before_epoch <= current_epoch && current_epoch > adv.expires_at_epoch
                    ==> r == Err::<bool, DiscoveryError>(
                        DiscoveryError::ExpiredAdvertisement { current_epoch, expires_at: adv.expires_at_epoch })
                    && final(self).state() == s0
                &&& in_window && stale ==> r == Err::<bool, DiscoveryError>(DiscoveryError::StaleSequence {
                        current_sequence: s0.advs[id].sequence, incoming_sequence: adv.sequence })
                    && final(self).state() == s0
                &&& in_window && !stale && dup ==> r == Ok::<bool, DiscoveryError>(false) && final(self).state() == s0
                &&& in_window && !stale && !dup && refused ==> r == Err::<bool, DiscoveryError>(DiscoveryError::RoutingTableFull)
                    && final(self).state() == base
                &&& in_window && !stale && !dup && !refused ==> r == Ok::<bool, DiscoveryError>(true)
                    && final(self).state() == ingested(base, adv)
            }),
    {
        let ghost s0 = self.state();
        if adv.signature.len() == 0 {
            return Err(DiscoveryError::SignatureInvalid);
        }
        if current_epoch < adv.not_before_epoch {
            return Err(DiscoveryError::PrematureAdvertisement { current_epoch, not_before: adv.not_before_epoch });
        }
        if current_epoch > adv.expires_at_epoch {
            return Err(DiscoveryError::ExpiredAdvertisement { current_epoch, expires_at: adv.expires_at_epoch });
        }
        match self.advertisements.get(&adv.actor_id) {
            Some(existing) => {
                if adv.sequence < existing.sequence {
                    return Err(DiscoveryError::StaleSequence {
                        current_sequence: existing.sequence,
                        incoming_sequence: adv.sequence,
                    });
                }
                if adv.sequence == existing.sequence && adv_eq(&adv, existing) {
                    return Ok(false);
                }
                proof {
                    assert(adv_view(adv) != s0.advs[adv.actor_id@]);
                }
            }
            None => {}
        }
        let n = self.advertisements.len();
        proof {
            assert(s0.advs.dom() =~= old(self).advertisements@.dom());
        }
        if n >= MAX_ROUTING_TABLE_ENTRIES && !self.advertisements.contains_key(&adv.actor_id) {
            self.prune_expired_routes(current_epoch);
            let n2 = self.advertisements.len();
            proof {
                assert(self.state().advs.dom() =~= self.advertisements@.dom());
            }
            if n2 >= MAX_ROUTING_TABLE_ENTRIES {
                return Err(DiscoveryError::RoutingTableFull);
            }
        }
        let ghost base = self.state();
        let direct = RouteEntry {
            destination: adv.actor_id,
            next_hop: adv.actor_id,
            hop_count: 1,
            sequence: adv.sequence,
            expires_at_epoch: adv.expires_at_epoch,
            endpoint_hints: copy_hints(&adv.endpoint_hints),
        };
        let t = adv.namespace_or_topic;
        let ghost tmap = self.topic_subscriptions@;
        match self.topic_subscriptions.remove(&t) {
            Some(v) => {
                let mut v = v;
                if !contains_actor(&v, &adv.actor_id) {
                    v.push(adv.actor_id);
                }
                self.topic_subscriptions.insert(t, v);
                proof {
                    assert(self.topic_subscriptions@ =~= tmap.insert(t@, v));
                }
            }
            None => {
                let mut v: Vec<ActorID> = Vec::new();
                v.push(adv.actor_id);
                self.topic_subscriptions.insert(t, v);
                assert(v@ =~= seq![adv.actor_id]);
            }
        }
        let id = adv.actor_id;
        self.routes.insert(id, direct);
        self.advertisements.insert(id, adv);
        proof {
            let target = ingested(base, adv);
            assert(route_view(direct) == direct_route(adv));
            assert(self.state().routes =~= target.routes);
            assert(self.state().advs =~= target.advs);
            assert(self.state().topics =~= target.topics);
        }
        Ok(true)
    }

    /// Records a gossiped route when it is fresher (higher sequence) or shorter (same
    /// sequence, fewer hops) than the one on file; routes through this node itself are
    /// ignored. A table at capacity is pruned first and refuses a new destination if
    /// still full.
    pub fn add_multi_hop_route(
        &mut self,
        destination: ActorID,
        next_hop: ActorID,
        hop_count: u8,
        sequence: u64,
        expires_at_epoch: u64,
        endpoint_hints: Vec<EndpointHint>,
        current_epoch: u64,
    ) -> (r: Result<bool, DiscoveryError>)
        ensures
            final(self).local_actor_id == old(self).local_actor_id,
            ({
                let s0 = old(self).state();
                let d = destination@;
                let valid = hop_count <= MAX_ROUTE_HOPS && current_epoch <= expires_at_epoch
                    && next_hop != old(self).local_actor_id;
                let better = !s0.routes.contains_key(d) || sequence > s0.routes[d].sequence
                    || (sequence == s0.routes[d].sequence && hop_count < s0.routes[d].hop_count);
                let full = s0.routes.dom().len() >= MAX_ROUTING_TABLE_ENTRIES && !s0.routes.contains_key(d);
                let base = if full { pruned(s0, current_epoch) } else { s0 };
                let refused = full && base.routes.dom().len() >= MAX_ROUTING_TABLE_ENTRIES;
                let route = RouteView {
                    destination: d,
                    next_hop: next_hop@,
                    hop_count,
                    sequence,
                    expires_at_epoch,
                    endpoint_hints: hints_view(endpoint_hints@),
                };
                &&& hop_count > MAX_ROUTE_HOPS ==> r == Err::<bool, DiscoveryError>(DiscoveryError::InvalidEndpoint)
                    && final(self).state() == s0
                &&& hop_count <= MAX_ROUTE_HOPS && current_epoch > expires_at_epoch ==> r == Err::<bool, DiscoveryError>(
                        DiscoveryError::ExpiredAdvertisement { current_epoch, expires_at: expires_at_epoch })
                    && final(self).state() == s0
                &&& hop_count <= MAX_ROUTE_HOPS && current_epoch <= expires_at_epoch && next_hop == old(self).local_actor_id
                    ==> r == Ok::<bool, DiscoveryError>(false) && final(self).state() == s0
                &&& valid && !better ==> r == Ok::<bool, DiscoveryError>(false) && final(self).state() == s0
                &&& valid && better && refused ==> r == Err::<bool, DiscoveryError>(DiscoveryError::RoutingTableFull)
                    && final(self).state() == base
                &&& valid && better && !refused ==> r == Ok::<bool, DiscoveryError>(true)
                    && final(self).state() == (TableState { routes: base.routes.insert(d, route), ..base })
            }),
    {
        let ghost s0 = self.state();
        if hop_count > MAX_ROUTE_HOPS {
            return Err(DiscoveryError::InvalidEndpoint);
        }
        if current_epoch > expires_at_epoch {
            return Err(DiscoveryError::ExpiredAdvertisement { current_epoch, expires_at: expires_at_epoch });
        }
        if id_eq(&next_hop, &self.local_actor_id) {
            return Ok(false);
        }
        let should_update = match self.routes.get(&destination) {
            Some(existing) => sequence > existing.sequence
                || (sequence == existing.sequence && hop_count < existing.hop_count),
            None => true,
        };
        if !should_update {
            return Ok(false);
        }
        let n = self.routes.len();
        proof {
            assert(s0.routes.dom() =~= old(self).routes@.dom());
        }
        if n >= MAX_ROUTING_TABLE_ENTRIES && !self.routes.contains_key(&destination) {
            self.prune_expired_routes(current_epoch);
            let n2 = self.routes.len();
            proof {
                assert(self.state().routes.dom() =~= self.routes@.dom());
            }
            if n2 >= MAX_ROUTING_TABLE_ENTRIES {
                return Err(DiscoveryError::RoutingTableFull);
            }
        }
        let ghost base = self.state();
        let ghost hv = hints_view(endpoint_hints@);
        let entry = RouteEntry { destination, next_hop, hop_count, sequence, expires_at_epoch, endpoint_hints };
        self.routes.insert(destination, entry);
        proof {
            assert(route_view(entry).endpoint_hints == hv);
            assert(self.state().routes =~= base.routes.insert(destination@, route_view(entry)));
            assert(self.state().advs =~= base.advs);
            assert(self.state().topics =~= base.topics);
        }
        Ok(true)
    }

    /// The route to `destination` if it has not expired at `current_epoch`.
    pub fn find_best_route(&self, destination: &ActorID, current_epoch: u64) -> (r: Option<&RouteEntry>)
        ensures
            match r {
                Some(e) => self.routes@.contains_key(destination@) && *e == self.routes@[destination@]
                    && e.expires_at_epoch >= current_epoch,
                None => !(self.routes@.contains_key(destination@)
                    && self.routes@[destination@].expires_at_epoch >= current_epoch),
            },
    {
        match self.routes.get(destination) {
            Some(e) => {
                if e.expires_at_epoch >= current_epoch {
                    Some(e)
                } else {
                    None
                }
            }
            None => None,
        }
    }
}

} // verus!
