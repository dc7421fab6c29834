use nex_core::HashRef;
use nex_core::crdt::epoch::Epoch;
use nex_core::crdt::types::{LamportRank, OperationBody, OperationIndex, RegisterState};
use nex_core::crdt::evaluator::{CrdtEvaluator, EvaluationItem, order_items};
use nex_core::crdt::projection::project;

fn href(b: u8) -> HashRef {
    HashRef { algorithm_id: 1, digest: vec![b; 32] }
}

fn item(epoch: u64, lamport: u64, mid: u8, idx: u32, body: OperationBody, tag: u8) -> EvaluationItem {
    EvaluationItem {
        epoch: Epoch(epoch),
        lamport_rank: LamportRank(lamport),
        mutation_id: href(mid),
        operation_index: OperationIndex(idx),
        body,
        op_tag: href(tag),
    }
}

fn add(key: &[u8], payload: &[u8]) -> OperationBody {
    OperationBody::Add { key: key.to_vec(), payload: payload.to_vec() }
}

fn sample() -> Vec<EvaluationItem> {
    vec![
        item(1, 3, 3, 0, OperationBody::Remove { key: b"k2".to_vec() }, 30),
        item(1, 2, 2, 0, add(b"k1", b"v2"), 20),
        item(1, 1, 1, 0, add(b"k1", b"v1"), 10),
        item(1, 1, 1, 1, add(b"k2", b"w"), 11),
    ]
}

fn registers(items: Vec<EvaluationItem>) -> CrdtEvaluator {
    let mut ev = CrdtEvaluator::new();
    ev.evaluate(items);
    ev
}

#[test]
fn evaluation_follows_causal_order() {
    let ev = registers(sample());
    assert_eq!(ev.register_state.len(), 2);
    match ev.register_state.get(&b"k1".to_vec()) {
        Some(RegisterState::Add { payload, lamport_rank, .. }) => {
            assert_eq!(payload, &b"v2".to_vec());
            assert_eq!(*lamport_rank, LamportRank(2));
        }
        other => panic!("unexpected register {:?}", other),
    }
    assert!(matches!(ev.register_state.get(&b"k2".to_vec()), Some(RegisterState::Remove { .. })));
}

#[test]
fn replaying_items_changes_nothing() {
    let mut doubled = sample();
    doubled.extend(sample());
    let once = registers(sample());
    let twice = registers(doubled);
    assert_eq!(once.register_state.len(), twice.register_state.len());
    for i in 0..once.register_state.len() {
        assert_eq!(once.register_state.key_at(i), twice.register_state.key_at(i));
        assert_eq!(once.register_state.value_at(i), twice.register_state.value_at(i));
    }
}

#[test]
fn delivery_order_does_not_matter() {
    let mut reversed = sample();
    reversed.reverse();
    let a = registers(sample());
    let b = registers(reversed);
    assert_eq!(a.register_state.len(), b.register_state.len());
    for i in 0..a.register_state.len() {
        assert_eq!(a.register_state.value_at(i), b.register_state.value_at(i));
    }
}

#[test]
fn a_newer_epoch_clears_older_registers() {
    let mut items = sample();
    items.push(item(2, 1, 9, 0, add(b"k3", b"fresh"), 90));
    let ev = registers(items);
    assert_eq!(ev.register_state.len(), 1);
    assert!(ev.register_state.contains_key(&b"k3".to_vec()));
}

#[test]
fn control_operations_write_nothing() {
    let ev = registers(vec![item(1, 1, 1, 0, OperationBody::InitObject, 1), item(1, 2, 2, 0, OperationBody::Resurrect, 2)]);
    assert_eq!(ev.register_state.len(), 0);
}

#[test]
fn item_order_is_epoch_then_rank_then_id_then_index() {
    let a = item(1, 5, 9, 9, OperationBody::InitObject, 0);
    let b = item(2, 0, 0, 0, OperationBody::InitObject, 0);
    assert_eq!(order_items(&a, &b), -1);
    assert_eq!(order_items(&b, &a), 1);
    let c = item(1, 5, 9, 8, OperationBody::Resurrect, 7);
    assert_eq!(order_items(&c, &a), -1);
    assert_eq!(order_items(&a, &a), 0);
}

#[test]
fn projection_splits_adds_and_tombstones() {
    let mut items = sample();
    items.push(item(1, 4, 4, 0, OperationBody::Remove { key: b"k4".to_vec() }, 30));
    let ev = registers(items);
    let state = project(&ev.register_state);
    assert_eq!(state.adds_map.len(), 1);
    assert_eq!(state.adds_map.get(&b"k1".to_vec()), Some(&(href(20), b"v2".to_vec())));
    assert_eq!(state.tombstones_arr, vec![href(30)]);
}
