use nex_core::apps::erasure::{ReedSolomonEngine, ReedSolomonShard};
use nex_core::apps::resources::{ErasureCoder, ShardDescriptor, ProofOfRetrievability, BilateralCreditLedger,
    ShardHealthAuditor, ShardHealthStatus};
use sha2::{Digest, Sha256};

fn sample_payload() -> Vec<u8> {
    b"sovereign data shards survive the loss of a device".to_vec()
}

#[test]
fn reed_solomon_round_trip_with_all_shards() {
    let engine = ReedSolomonEngine::new();
    let payload = sample_payload();
    let shards = engine.encode(&payload, 4, 2);
    assert_eq!(shards.len(), 6);
    for (i, s) in shards.iter().enumerate() {
        assert_eq!(s.shard_index as usize, i);
        assert_eq!(s.data_shards, 4);
        assert_eq!(s.parity_shards, 2);
    }
    let digest: [u8; 32] = Sha256::digest(&payload).into();
    assert_eq!(shards[0].chunk_hash, digest);
    let out = engine.decode(&shards, 4, 2, payload.len()).unwrap();
    assert_eq!(out, payload);
}

#[test]
fn reed_solomon_recovers_lost_data_shards() {
    let engine = ReedSolomonEngine::new();
    let payload = sample_payload();
    let shards = engine.encode(&payload, 4, 2);
    let survivors: Vec<ReedSolomonShard> = shards.into_iter().filter(|s| s.shard_index != 0 && s.shard_index != 2).collect();
    assert_eq!(survivors.len(), 4);
    let out = engine.decode(&survivors, 4, 2, payload.len()).unwrap();
    assert_eq!(out, payload);
}

#[test]
fn reed_solomon_reports_insufficient_shards() {
    let engine = ReedSolomonEngine::new();
    let payload = sample_payload();
    let shards = engine.encode(&payload, 4, 2);
    let few: Vec<ReedSolomonShard> = shards.into_iter().take(3).collect();
    let err = engine.decode(&few, 4, 2, payload.len()).unwrap_err();
    assert_eq!(err, "Insufficient shards: have 3, need 4");
}

#[test]
fn xor_parity_split_layout() {
    let payload = b"abcdefghij".to_vec();
    let shards = ErasureCoder::split(&payload, 3);
    assert_eq!(shards.len(), 4);
    assert_eq!(shards[0].data, b"abcd".to_vec());
    assert_eq!(shards[1].data, b"efgh".to_vec());
    assert_eq!(shards[2].data, vec![b'i', b'j', 0, 0]);
    let parity: Vec<u8> = (0..4).map(|j| shards[0].data[j] ^ shards[1].data[j] ^ shards[2].data[j]).collect();
    assert_eq!(shards[3].data, parity);
    assert!(shards.iter().all(|s| s.total_shards == 4));
}

#[test]
fn xor_parity_reconstructs_after_one_loss() {
    let payload = b"abcdefghij".to_vec();
    let shards = ErasureCoder::split(&payload, 3);
    let survivors: Vec<ShardDescriptor> = shards.into_iter().filter(|s| s.shard_index != 1).collect();
    assert_eq!(ErasureCoder::reconstruct(&survivors, 3, payload.len()).unwrap(), payload);
}

#[test]
fn xor_parity_reconstruct_errors() {
    let payload = b"abcdefghij".to_vec();
    let shards = ErasureCoder::split(&payload, 3);
    let two: Vec<ShardDescriptor> = shards.iter().take(2).cloned().collect();
    assert_eq!(ErasureCoder::reconstruct(&two, 3, payload.len()).unwrap_err(), "Insufficient shards for reconstruction");
}

#[test]
fn shard_id_hashes_domain_hash_and_index() {
    let shards = ErasureCoder::split(b"xyz", 2);
    let mut h = Sha256::new();
    h.update(b"NEX/SHARD_ID/v1");
    h.update(&shards[1].chunk_hash);
    h.update(&[1u8]);
    let expected: [u8; 32] = h.finalize().into();
    assert_eq!(shards[1].shard_id(), expected);
}

#[test]
fn storage_proofs_bind_data_and_nonce() {
    let data = b"shard bytes".to_vec();
    let proof = ProofOfRetrievability::prove_storage(&data, 7);
    assert!(ProofOfRetrievability::verify_proof(proof, &data, 7));
    assert!(!ProofOfRetrievability::verify_proof(proof, &data, 8));
    assert!(!ProofOfRetrievability::verify_proof(proof, b"other bytes", 7));
    assert_ne!(proof.to_vec(), data);
}

#[test]
fn credit_ledger_enforces_debt_ceiling() {
    let mut ledger = BilateralCreditLedger::new();
    let peer = [9u8; 32];
    assert_eq!(ledger.record_transfer(peer, -50, 100), Ok(-50));
    assert_eq!(ledger.get_balance(&peer), -50);
    assert_eq!(ledger.record_transfer(peer, -60, 100), Err("Debt ceiling exceeded for peer".to_string()));
    assert_eq!(ledger.get_balance(&peer), -50);
    assert_eq!(ledger.record_transfer(peer, 80, 100), Ok(30));
    assert_eq!(ledger.get_balance(&[1u8; 32]), 0);
}

#[test]
fn shard_health_levels() {
    let mut auditor = ShardHealthAuditor::new();
    let chunk = [5u8; 32];
    assert_eq!(auditor.audit_health(&chunk, 2, 3), ShardHealthStatus::Critical);
    auditor.register_provider(chunk, [1u8; 32]);
    auditor.register_provider(chunk, [2u8; 32]);
    assert_eq!(auditor.audit_health(&chunk, 2, 3), ShardHealthStatus::Degraded);
    auditor.register_provider(chunk, [3u8; 32]);
    auditor.register_provider(chunk, [3u8; 32]);
    assert_eq!(auditor.audit_health(&chunk, 2, 3), ShardHealthStatus::Healthy);
    auditor.unregister_provider(&chunk, &[1u8; 32]);
    assert_eq!(auditor.audit_health(&chunk, 2, 3), ShardHealthStatus::Degraded);
}

#[test]
fn xor_parity_survives_any_single_loss_in_any_order() {
    let payload = b"abcdefghij".to_vec();
    let shards = ErasureCoder::split(&payload, 3);
    for lost in 0..shards.len() {
        let mut rest: Vec<ShardDescriptor> = shards.iter().enumerate().filter(|(i, _)| *i != lost).map(|(_, s)| s.clone()).collect();
        rest.reverse();
        assert_eq!(ErasureCoder::reconstruct(&rest, 3, payload.len()).unwrap(), payload);
    }
    let mut all = shards.clone();
    all.rotate_left(2);
    assert_eq!(ErasureCoder::reconstruct(&all, 3, payload.len()).unwrap(), payload);
}
