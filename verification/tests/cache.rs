use methane::tasks::{BlockRef, ProofForm, RecordEvent, Tasks, Transaction, TxId, TxTask};

fn id(v: u64) -> TxId {
    TxId { value: v }
}

fn block(height: u64, digest: u64) -> BlockRef {
    BlockRef { height, digest }
}

fn tx(kernel: u8, witness: u8) -> Transaction<u8, u8> {
    Transaction { kernel, proof: ProofForm::IntermediateCollection(witness) }
}

#[test]
fn tx_task_new_unpacks_the_witness() {
    let t = TxTask::new(id(7), tx(3, 9), block(4, 5));
    assert_eq!(t.id, id(7));
    assert_eq!(t.kernel, 3);
    assert_eq!(t.proof, 9);
    assert_eq!(t.synced_block, block(4, 5));
}

#[test]
fn empty_cache_has_no_candidate() {
    let t: Tasks<u8, u8> = Tasks::new();
    assert_eq!(t.len(), 0);
    assert!(!t.has(id(1)));
    assert!(t.best_candidate().is_none());
}

#[test]
fn discovery_makes_the_candidate_selectable() {
    // An empty cache, then one record at height 10.
    let mut t: Tasks<u8, u8> = Tasks::new();
    let ev = t.record(id(1), tx(0, 3), block(10, 7));
    assert_eq!(ev, Some(RecordEvent::Discovered));
    assert!(t.has(id(1)));
    let best = t.best_candidate().unwrap();
    assert_eq!(best.id, id(1));
    assert_eq!(best.proof, 3);
    assert_eq!(best.synced_block, block(10, 7));
}

#[test]
fn stale_update_is_ignored() {
    // An entry at height 10, then an observation at height 9.
    let mut t: Tasks<u8, u8> = Tasks::new();
    t.record(id(1), tx(0, 3), block(10, 7));
    let ev = t.record(id(1), tx(1, 4), block(9, 8));
    assert_eq!(ev, None);
    let best = t.best_candidate().unwrap();
    assert_eq!(best.proof, 3);
    assert_eq!(best.synced_block, block(10, 7));
}

#[test]
fn duplicate_update_is_ignored() {
    let mut t: Tasks<u8, u8> = Tasks::new();
    t.record(id(1), tx(0, 3), block(10, 7));
    let ev = t.record(id(1), tx(0, 3), block(10, 7));
    assert_eq!(ev, None);
    assert_eq!(t.len(), 1);
}

#[test]
fn record_is_idempotent() {
    // Recording the identical observation twice: one event, same state.
    let mut t: Tasks<u8, u8> = Tasks::new();
    let mut emitted = 0;
    if t.record(id(1), tx(0, 3), block(10, 7)).is_some() {
        emitted += 1;
    }
    if t.record(id(1), tx(0, 3), block(10, 7)).is_some() {
        emitted += 1;
    }
    assert_eq!(emitted, 1);
    assert_eq!(t.len(), 1);
    let best = t.best_candidate().unwrap();
    assert_eq!(best.proof, 3);
    assert_eq!(best.synced_block, block(10, 7));
}

#[test]
fn reorg_at_same_height_replaces_the_entry() {
    // An entry at height 10 against one block, then the same height with
    // a differing digest.
    let mut t: Tasks<u8, u8> = Tasks::new();
    t.record(id(1), tx(0, 3), block(10, 7));
    let ev = t.record(id(1), tx(1, 4), block(10, 8));
    assert_eq!(ev, Some(RecordEvent::Updated));
    let best = t.best_candidate().unwrap();
    assert_eq!(best.kernel, 1);
    assert_eq!(best.proof, 4);
    assert_eq!(best.synced_block, block(10, 8));
}

#[test]
fn higher_height_replaces_the_entry() {
    let mut t: Tasks<u8, u8> = Tasks::new();
    t.record(id(1), tx(0, 3), block(10, 7));
    let ev = t.record(id(1), tx(1, 4), block(11, 7));
    assert_eq!(ev, Some(RecordEvent::Updated));
    assert_eq!(t.best_candidate().unwrap().synced_block, block(11, 7));
}

#[test]
fn heights_never_regress_over_a_sequence_of_records() {
    let mut t: Tasks<u8, u8> = Tasks::new();
    let observed = [10u64, 9, 12, 11, 12, 15];
    let mut last_height = 0u64;
    for (i, h) in observed.iter().enumerate() {
        t.record(id(1), tx(i as u8, i as u8), block(*h, i as u64));
        let stored = t.best_candidate().unwrap().synced_block.height;
        assert!(stored >= last_height);
        assert!(stored >= 10);
        last_height = stored;
    }
    assert_eq!(last_height, 15);
}

#[test]
fn forget_removes_and_reports() {
    let mut t: Tasks<u8, u8> = Tasks::new();
    t.record(id(1), tx(0, 3), block(10, 7));
    assert!(t.forget(id(1)));
    assert!(!t.has(id(1)));
    assert_eq!(t.len(), 0);
}

#[test]
fn forget_of_an_absent_identity_is_a_silent_noop() {
    let mut t: Tasks<u8, u8> = Tasks::new();
    assert!(!t.forget(id(1)));
    assert_eq!(t.len(), 0);
}

#[test]
fn forgotten_identity_is_never_selected_until_reinserted() {
    let mut t: Tasks<u8, u8> = Tasks::new();
    t.record(id(1), tx(0, 3), block(10, 7));
    t.record(id(2), tx(1, 4), block(10, 7));
    t.forget(id(1));
    let best = t.best_candidate().unwrap();
    assert_eq!(best.id, id(2));
    // Re-insertion makes it selectable again (behind the earlier entry).
    let ev = t.record(id(1), tx(0, 3), block(10, 7));
    assert_eq!(ev, Some(RecordEvent::Discovered));
    assert_eq!(t.best_candidate().unwrap().id, id(2));
    t.forget(id(2));
    assert_eq!(t.best_candidate().unwrap().id, id(1));
}

#[test]
fn selection_is_deterministic_in_discovery_order() {
    let mut t: Tasks<u8, u8> = Tasks::new();
    t.record(id(5), tx(0, 0), block(1, 0));
    t.record(id(2), tx(1, 1), block(1, 0));
    t.record(id(9), tx(2, 2), block(1, 0));
    assert_eq!(t.best_candidate().unwrap().id, id(5));
    // Replacement keeps the discovery position.
    t.record(id(5), tx(3, 3), block(2, 0));
    assert_eq!(t.best_candidate().unwrap().id, id(5));
    assert_eq!(t.best_candidate().unwrap().proof, 3);
}
