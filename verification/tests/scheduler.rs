use methane::prover::{Prover, ProverAction};
use methane::tasks::{BlockRef, ProofForm, Tasks, Transaction, TxId};

fn id(v: u64) -> TxId {
    TxId { value: v }
}

fn block(height: u64, digest: u64) -> BlockRef {
    BlockRef { height, digest }
}

fn tx(kernel: u8, witness: u8) -> Transaction<u8, u8> {
    Transaction { kernel, proof: ProofForm::IntermediateCollection(witness) }
}

#[test]
fn empty_cache_leaves_the_scheduler_idle() {
    let t: Tasks<u8, u8> = Tasks::new();
    let mut p = Prover::new();
    assert_eq!(p.current(), None);
    assert_eq!(p.check_jobs(false, &t), ProverAction::Idle);
    assert_eq!(p.current(), None);
}

#[test]
fn a_candidate_is_dispatched_and_kept_running() {
    let mut t: Tasks<u8, u8> = Tasks::new();
    t.record(id(1), tx(0, 3), block(10, 7));
    let mut p = Prover::new();
    assert_eq!(p.check_jobs(false, &t), ProverAction::Started(id(1)));
    assert_eq!(p.current(), Some(id(1)));
    // While the computation runs and the target stays cached, nothing new
    // is started: at most one job is in flight.
    assert_eq!(p.check_jobs(false, &t), ProverAction::KeepRunning);
    assert_eq!(p.check_jobs(false, &t), ProverAction::KeepRunning);
    assert_eq!(p.current(), Some(id(1)));
}

#[test]
fn only_one_of_two_candidates_is_dispatched() {
    // Two cached candidates; exactly one job starts, and the
    // other is taken up only once the slot is free again.
    let mut t: Tasks<u8, u8> = Tasks::new();
    t.record(id(1), tx(0, 3), block(10, 7));
    t.record(id(2), tx(1, 4), block(10, 7));
    let mut p = Prover::new();
    assert_eq!(p.check_jobs(false, &t), ProverAction::Started(id(1)));
    assert_eq!(p.check_jobs(false, &t), ProverAction::KeepRunning);
    // The first job finishes and its transaction reaches its canonical
    // proof, so the pool scan forgets it; the next tick reaps and
    // dispatches the second candidate.
    t.forget(id(1));
    assert_eq!(p.check_jobs(true, &t), ProverAction::Started(id(2)));
    assert_eq!(p.current(), Some(id(2)));
}

#[test]
fn forgetting_the_target_cancels_the_job_on_the_next_tick() {
    // A job is running for an identity that then leaves the cache.
    let mut t: Tasks<u8, u8> = Tasks::new();
    t.record(id(1), tx(0, 3), block(10, 7));
    let mut p = Prover::new();
    assert_eq!(p.check_jobs(false, &t), ProverAction::Started(id(1)));
    t.forget(id(1));
    assert_eq!(p.check_jobs(false, &t), ProverAction::Cancelled(id(1)));
    assert_eq!(p.current(), None);
    // A cancelling tick does not dispatch; the next one does, and the
    // forgotten identity is never offered again.
    assert_eq!(p.check_jobs(false, &t), ProverAction::Idle);
    assert!(t.best_candidate().is_none());
}

#[test]
fn a_finished_job_is_reaped_and_the_slot_reused() {
    let mut t: Tasks<u8, u8> = Tasks::new();
    t.record(id(1), tx(0, 3), block(10, 7));
    let mut p = Prover::new();
    assert_eq!(p.check_jobs(false, &t), ProverAction::Started(id(1)));
    // The computation finished but the transaction is still pending with
    // an intermediate proof (submission failed, say): it is reconsidered.
    assert_eq!(p.check_jobs(true, &t), ProverAction::Started(id(1)));
}

#[test]
fn cancellation_races_a_finished_job_without_double_processing() {
    // The target leaves the cache in the same tick in which the job
    // finishes: the finished job is reaped first, and the tick dispatches
    // whatever is still eligible instead of cancelling a completed job.
    let mut t: Tasks<u8, u8> = Tasks::new();
    t.record(id(1), tx(0, 3), block(10, 7));
    t.record(id(2), tx(1, 4), block(10, 7));
    let mut p = Prover::new();
    assert_eq!(p.check_jobs(false, &t), ProverAction::Started(id(1)));
    t.forget(id(1));
    assert_eq!(p.check_jobs(true, &t), ProverAction::Started(id(2)));
}
