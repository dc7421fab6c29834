use nex_core::apps::discovery::{DhtRoutingTable, InvertedSearchIndex, TopicPubSub};
use nex_core::discovery::routing_table::{RoutingTable, MAX_ROUTE_HOPS};
use nex_core::discovery::types::{DiscoveryAdvertisement, DiscoveryError, EndpointHint, derive_blinded_topic};
use nex_core::discovery::beacon::DiscoveryBeacon;
use sha2::{Digest, Sha256};

fn adv(actor: u8, seq: u64, expires: u64) -> DiscoveryAdvertisement {
    DiscoveryAdvertisement {
        actor_id: [actor; 32],
        namespace_or_topic: [0xEE; 32],
        sequence: seq,
        not_before_epoch: 10,
        expires_at_epoch: expires,
        endpoint_hints: vec![EndpointHint { transport_tag: 1, address_bytes: vec![127, 0, 0, 1], priority: 5 }],
        offered_capabilities: 0,
        signature: vec![1; 64],
    }
}

#[test]
fn routing_table_ingests_fresh_advertisements() {
    let mut t = RoutingTable::new([0u8; 32]);
    assert_eq!(t.ingest_advertisement(adv(1, 5, 100), 20), Ok(true));
    assert_eq!(t.ingest_advertisement(adv(1, 5, 100), 20), Ok(false));
    assert_eq!(t.ingest_advertisement(adv(1, 4, 100), 20),
        Err(DiscoveryError::StaleSequence { current_sequence: 5, incoming_sequence: 4 }));
    assert_eq!(t.ingest_advertisement(adv(2, 1, 100), 5),
        Err(DiscoveryError::PrematureAdvertisement { current_epoch: 5, not_before: 10 }));
    assert_eq!(t.ingest_advertisement(adv(2, 1, 15), 20),
        Err(DiscoveryError::ExpiredAdvertisement { current_epoch: 20, expires_at: 15 }));
    let mut unsigned = adv(3, 1, 100);
    unsigned.signature.clear();
    assert_eq!(t.ingest_advertisement(unsigned, 20), Err(DiscoveryError::SignatureInvalid));
    let r = t.find_best_route(&[1u8; 32], 50).unwrap();
    assert_eq!((r.next_hop, r.hop_count, r.sequence), ([1u8; 32], 1, 5));
    assert!(t.find_best_route(&[1u8; 32], 101).is_none());
}

#[test]
fn routing_table_prefers_fresher_or_shorter_routes() {
    let mut t = RoutingTable::new([0u8; 32]);
    let d = [7u8; 32];
    assert_eq!(t.add_multi_hop_route(d, [2u8; 32], 3, 1, 100, vec![], 10), Ok(true));
    assert_eq!(t.add_multi_hop_route(d, [3u8; 32], 4, 1, 100, vec![], 10), Ok(false));
    assert_eq!(t.add_multi_hop_route(d, [3u8; 32], 2, 1, 100, vec![], 10), Ok(true));
    assert_eq!(t.add_multi_hop_route(d, [4u8; 32], 9, 2, 100, vec![], 10), Ok(true));
    assert_eq!(t.find_best_route(&d, 10).unwrap().next_hop, [4u8; 32]);
    assert_eq!(t.add_multi_hop_route(d, [0u8; 32], 1, 3, 100, vec![], 10), Ok(false));
    assert_eq!(t.add_multi_hop_route(d, [5u8; 32], MAX_ROUTE_HOPS + 1, 9, 100, vec![], 10), Err(DiscoveryError::InvalidEndpoint));
    assert_eq!(t.add_multi_hop_route(d, [5u8; 32], 1, 9, 5, vec![], 10),
        Err(DiscoveryError::ExpiredAdvertisement { current_epoch: 10, expires_at: 5 }));
}

#[test]
fn routing_table_prunes_expired_entries() {
    let mut t = RoutingTable::new([0u8; 32]);
    t.ingest_advertisement(adv(1, 1, 30), 20).unwrap();
    t.ingest_advertisement(adv(2, 1, 100), 20).unwrap();
    assert_eq!(t.prune_expired_routes(50), 1);
    assert!(t.find_best_route(&[1u8; 32], 20).is_none());
    assert!(t.find_best_route(&[2u8; 32], 20).is_some());
    assert_eq!(t.prune_expired_routes(50), 0);
}

#[test]
fn pruning_drops_expired_multi_hop_routes() {
    let mut t = RoutingTable::new([0u8; 32]);
    let d = [7u8; 32];
    let e = [8u8; 32];
    assert_eq!(t.add_multi_hop_route(d, [2u8; 32], 3, 1, 40, vec![], 10), Ok(true));
    assert_eq!(t.add_multi_hop_route(e, [2u8; 32], 3, 1, 100, vec![], 10), Ok(true));
    assert_eq!(t.prune_expired_routes(50), 0);
    assert!(t.routes.get(&d).is_none());
    assert!(t.routes.get(&e).is_some());
}

#[test]
fn blinded_topics_depend_on_secret_and_epoch() {
    let a = derive_blinded_topic(&[1u8; 32], 7);
    assert_ne!(a, derive_blinded_topic(&[1u8; 32], 8));
    assert_ne!(a, derive_blinded_topic(&[2u8; 32], 7));
    assert_ne!(a, [1u8; 32]);
}

#[test]
fn beacons_carry_their_magic() {
    let b = DiscoveryBeacon::new([1u8; 32], 4000, [2u8; 32], "laptop", 99);
    assert!(b.has_valid_magic());
    assert_eq!(b.tcp_port, 4000);
    assert_eq!(b.timestamp_epoch, 99);
}

#[test]
fn dht_finds_closest_by_xor_distance() {
    let mut t = DhtRoutingTable::new([0u8; 32]);
    let mut far = [0u8; 32];
    far[0] = 0x80;
    let mut near = [0u8; 32];
    near[31] = 1;
    let mut mid = [0u8; 32];
    mid[15] = 1;
    t.add_peer(far, "a:1", 1);
    t.add_peer(near, "b:1", 1);
    t.add_peer(mid, "c:1", 1);
    assert_eq!(t.find_closest_nodes(&[0u8; 32], 2), vec![near, mid]);
    assert_eq!(t.find_closest_nodes(&[0u8; 32], 10), vec![near, mid, far]);
    let d = DhtRoutingTable::xor_distance(&far, &near);
    assert_eq!(d[0], 0x80);
    assert_eq!(d[31], 1);
}

#[test]
fn search_ranks_by_matching_terms() {
    let mut idx = InvertedSearchIndex::new();
    let (a, b, c) = ([1u8; 32], [2u8; 32], [3u8; 32]);
    idx.index_document(a, "Sovereign data, locally FIRST!");
    idx.index_document(b, "first light");
    idx.index_document(c, "data data");
    assert_eq!(idx.search("first data"), vec![a, b, c]);
    assert_eq!(idx.search("DATA"), vec![a, c]);
    assert_eq!(idx.search("light first"), vec![b, a]);
    assert_eq!(idx.search("  ...  "), Vec::<[u8; 32]>::new());
    assert_eq!(idx.search("missing"), Vec::<[u8; 32]>::new());
}

#[test]
fn pubsub_lists_subscribers_in_id_order() {
    let mut ps = TopicPubSub::new();
    let t = [9u8; 32];
    ps.subscribe(t, [3u8; 32]);
    ps.subscribe(t, [1u8; 32]);
    ps.subscribe(t, [3u8; 32]);
    assert_eq!(ps.publish(&t), vec![[1u8; 32], [3u8; 32]]);
    assert!(ps.publish(&[0u8; 32]).is_empty());
    let _ = Sha256::digest(b"");
}
