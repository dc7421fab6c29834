use nex_core::identity::blocklist::PersonalBlocklist;
use nex_core::identity::master::NexMasterIdentity;
use nex_core::identity::recovery::device_recovery::DeviceRecoveryWorkflow;
use nex_core::identity::authority::derive_actor_id;
use nex_core::identity::types::KeyType;
use nex_core::keyed_map::KeyedMap;

#[test]
fn test_personal_blocklist_lifecycle() {
    let mut blocklist = PersonalBlocklist::new();
    let bad_actor = [0x99; 32];
    let good_actor = [0x11; 32];

    assert!(!blocklist.is_blocked(&bad_actor));
    assert!(blocklist.block_actor(bad_actor));
    assert!(blocklist.is_blocked(&bad_actor));
    assert!(!blocklist.is_blocked(&good_actor));

    // Duplicate block returns false (already present)
    assert!(!blocklist.block_actor(bad_actor));

    // Unblock
    assert!(blocklist.unblock_actor(&bad_actor));
    assert!(!blocklist.is_blocked(&bad_actor));
}

#[test]
fn test_device_recovery_workflow_lifecycle() {
    let master_seed = [0x42; 32];
    let master = NexMasterIdentity::from_seed(&master_seed);
    let root_actor = master.root_actor();

    // 1. Setup 3-of-5 recovery
    let (plan, shares) = DeviceRecoveryWorkflow::setup_3_of_5_recovery(&master_seed, 100, None, 0).unwrap();
    assert_eq!(plan.threshold, 3);
    assert_eq!(plan.total_shares, 5);
    assert_eq!(shares.len(), 5);

    // 2. Device A is lost
    let device_a_pubkey = [0x11; 32];
    let device_a_actor = derive_actor_id(KeyType::Ed25519, &device_a_pubkey);

    // 3. Start ceremony on Device B
    let mut ceremony = DeviceRecoveryWorkflow::start_ceremony(root_actor, 0);

    // Submit 3 shares (Shares 1, 2, 4)
    ceremony.submit_share(shares[0].clone()).unwrap();
    ceremony.submit_share(shares[1].clone()).unwrap();
    ceremony.submit_share(shares[3].clone()).unwrap();

    // 4. Replacement Device B details
    let device_b_pubkey = [0x22; 32];
    let mut crl: KeyedMap<[u8; 32], ()> = KeyedMap::new();

    let recovery_res = DeviceRecoveryWorkflow::execute_device_recovery(
        &ceremony,
        &device_b_pubkey,
        Some(device_a_actor),
        105,
        &mut crl,
    ).unwrap();

    // 5. Assert identity continuity
    assert_eq!(recovery_res.root_actor_id, root_actor, "Root ActorID must remain invariant");
    assert!(crl.contains_key(&device_a_actor), "Lost Device A must be in CRL");
    assert_eq!(recovery_res.replacement_certificate.master_actor_id, root_actor);
    assert_eq!(recovery_res.replacement_certificate.device_actor_id, recovery_res.replacement_device_actor_id);
}

#[test]
fn blocklist_lists_blocked_actors_in_id_order() {
    let mut blocklist = PersonalBlocklist::new();
    assert!(blocklist.block_actor([0x30; 32]));
    assert!(blocklist.block_actor([0x10; 32]));
    assert!(blocklist.block_actor([0x20; 32]));
    assert_eq!(blocklist.list_blocked(), vec![[0x10; 32], [0x20; 32], [0x30; 32]]);
    assert!(!blocklist.unblock_actor(&[0x40; 32]));
}
