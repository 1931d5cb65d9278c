//! The poll-loop coordination: folding a batch of pool observations into
//! the candidate cache, and the combined cache-plus-scheduler state.
//!
//! The surrounding service polls its node on a cadence, fetches the chain
//! tip and, for every pending transaction, its proof (and, for intermediate
//! proofs, its kernel), and hands the result here as a [`PoolView`] per
//! transaction. This module decides what each observation means for the
//! cache — record, forget, or skip — and reports every decision as a
//! [`ScanEvent`].

use vstd::prelude::*;

use crate::prover::{spec_check_jobs, Prover, ProverAction};
use crate::tasks::{
    has_id, ids_distinct, spec_forget, spec_record, spec_record_event, BlockRef, ProofForm,
    RecordEvent, Tasks, Transaction, TxId, TxTask,
};

verus! {

/// One pending transaction as the poll saw it: its proof was missing, or it
/// is still in the intermediate form (with the kernel, when that could be
/// fetched too), or it already carries a canonical proof.
pub enum PoolView<K, W> {
    /// No proof was found: the transaction vanished or is not yet indexed.
    ProofMissing,
    /// The proof is the upgradeable intermediate form with witness data
    /// `witness`; `kernel` is the transaction kernel, if it could be
    /// fetched.
    Intermediate { witness: W, kernel: Option<K> },
    /// The proof is already canonical: nothing left to upgrade.
    Canonical,
}

/// What one observation did to the cache.
#[derive(Clone, Copy, PartialEq, Eq, Debug, Structural)]
pub enum ScanEvent {
    /// Skipped: no proof was found for the transaction.
    ProofMissing(TxId),
    /// Skipped: the proof is intermediate but the kernel was unavailable.
    KernelMissing(TxId),
    /// A new candidate entered the cache.
    Discovered(TxId),
    /// An existing candidate was replaced (higher height, or a reorg).
    Updated(TxId),
    /// The candidate was already cached and the observation changed
    /// nothing (stale or duplicate).
    UnchangedCandidate(TxId),
    /// The transaction reached its canonical proof; its candidate left the
    /// cache.
    NoLongerUpgradable(TxId),
    /// The transaction carries a canonical proof and was not cached.
    AlreadyAbsent(TxId),
}

/// The cache contents after one observation: record intermediate-proof
/// transactions whose kernel is at hand, forget canonical ones, skip the
/// rest.
pub open spec fn spec_apply<K, W>(
    s: Seq<TxTask<K, W>>,
    id: TxId,
    view: PoolView<K, W>,
    tip: BlockRef,
) -> Seq<TxTask<K, W>> {
    match view {
        PoolView::ProofMissing => s,
        PoolView::Intermediate { witness, kernel } => match kernel {
            None => s,
            Some(k) => spec_record(
                s,
                id,
                Transaction { kernel: k, proof: ProofForm::IntermediateCollection(witness) },
                tip,
            ),
        },
        PoolView::Canonical => spec_forget(s, id),
    }
}

/// The event one observation emits.
pub open spec fn spec_apply_event<K, W>(
    s: Seq<TxTask<K, W>>,
    id: TxId,
    view: PoolView<K, W>,
    tip: BlockRef,
) -> ScanEvent {
    match view {
        PoolView::ProofMissing => ScanEvent::ProofMissing(id),
        PoolView::Intermediate { witness: _, kernel } => match kernel {
            None => ScanEvent::KernelMissing(id),
            Some(_) => match spec_record_event(s, id, tip) {
                Some(RecordEvent::Discovered) => ScanEvent::Discovered(id),
                Some(RecordEvent::Updated) => ScanEvent::Updated(id),
                None => ScanEvent::UnchangedCandidate(id),
            },
        },
        PoolView::Canonical => if has_id(s, id) {
            ScanEvent::NoLongerUpgradable(id)
        } else {
            ScanEvent::AlreadyAbsent(id)
        },
    }
}

/// The cache contents after a whole batch of observations, applied in
/// order.
pub open spec fn spec_scan<K, W>(
    s: Seq<TxTask<K, W>>,
    obs: Seq<(TxId, PoolView<K, W>)>,
    tip: BlockRef,
) -> Seq<TxTask<K, W>>
    decreases obs.len(),
{
    if obs.len() == 0 {
        s
    } else {
        spec_scan(spec_apply(s, obs[0].0, obs[0].1, tip), obs.drop_first(), tip)
    }
}

/// The events a whole batch of observations emits, one per observation, in
/// order.
pub open spec fn spec_scan_events<K, W>(
    s: Seq<TxTask<K, W>>,
    obs: Seq<(TxId, PoolView<K, W>)>,
    tip: BlockRef,
) -> Seq<ScanEvent>
    decreases obs.len(),
{
    if obs.len() == 0 {
        Seq::<ScanEvent>::empty()
    } else {
        seq![spec_apply_event(s, obs[0].0, obs[0].1, tip)] + spec_scan_events(
            spec_apply(s, obs[0].0, obs[0].1, tip),
            obs.drop_first(),
            tip,
        )
    }
}

/// Apply one observation to the cache and report what it did.
pub fn apply_observation<K, W>(
    tasks: &mut Tasks<K, W>,
    id: TxId,
    view: PoolView<K, W>,
    tip: BlockRef,
) -> (ev: ScanEvent)
    requires
        old(tasks).wf(),
    ensures
        final(tasks).wf(),
        final(tasks)@ == spec_apply(old(tasks)@, id, view, tip),
        ev == spec_apply_event(old(tasks)@, id, view, tip),
{
    match view {
        PoolView::ProofMissing => ScanEvent::ProofMissing(id),
        PoolView::Intermediate { witness, kernel } => match kernel {
            None => ScanEvent::KernelMissing(id),
            Some(k) => {
                let tx = Transaction {
                    kernel: k,
                    proof: ProofForm::IntermediateCollection(witness),
                };
                match tasks.record(id, tx, tip) {
                    Some(RecordEvent::Discovered) => ScanEvent::Discovered(id),
                    Some(RecordEvent::Updated) => ScanEvent::Updated(id),
                    None => ScanEvent::UnchangedCandidate(id),
                }
            },
        },
        PoolView::Canonical => {
            if tasks.forget(id) {
                ScanEvent::NoLongerUpgradable(id)
            } else {
                ScanEvent::AlreadyAbsent(id)
            }
        },
    }
}

/// The cache and the scheduler, wired together as the poll loop drives
/// them: scan the pool, then tick the scheduler.
pub struct Upgrader<K, W> {
    txs: Tasks<K, W>,
    prover: Prover,
}

impl<K, W> Upgrader<K, W> {
    /// The cached candidates, in discovery order.
    pub closed spec fn tasks_view(self) -> Seq<TxTask<K, W>> {
        self.txs@
    }

    /// The identity the running job targets, if one is running.
    pub closed spec fn job_view(self) -> Option<TxId> {
        self.prover@
    }

    /// The invariant: cached identities are distinct.
    pub open spec fn wf(self) -> bool {
        ids_distinct(self.tasks_view())
    }

    /// An upgrader with an empty cache and an empty job slot.
    pub fn new() -> (u: Self)
        ensures
            u.wf(),
            u.tasks_view() == Seq::<TxTask<K, W>>::empty(),
            u.job_view() is None,
    {
        Upgrader { txs: Tasks::new(), prover: Prover::new() }
    }

    /// The candidate cache, for reading.
    pub fn txs(&self) -> (t: &Tasks<K, W>)
        ensures
            t@ == self.tasks_view(),
    {
        &self.txs
    }

    /// The identity the running job targets, if one is running.
    pub fn current_job(&self) -> (r: Option<TxId>)
        ensures
            r == self.job_view(),
    {
        self.prover.current()
    }

    /// Fold a batch of pool observations into the cache, in order, and
    /// report one event per observation. The job slot is untouched; a
    /// stale running job is caught by the next [`Self::check_jobs`].
    pub fn scan_mempool(&mut self, tip: BlockRef, pool: Vec<(TxId, PoolView<K, W>)>) -> (events:
        Vec<ScanEvent>)
        requires
            old(self).wf(),
        ensures
            final(self).wf(),
            final(self).tasks_view() == spec_scan(old(self).tasks_view(), pool@, tip),
            events@ == spec_scan_events(old(self).tasks_view(), pool@, tip),
            final(self).job_view() == old(self).job_view(),
    {
        let ghost s0 = self.tasks_view();
        let ghost obs = pool@;
        let mut pool = pool;
        let mut events: Vec<ScanEvent> = Vec::new();
        while pool.len() > 0
            invariant
                self.wf(),
                self.job_view() == old(self).job_view(),
                spec_scan(s0, obs, tip) == spec_scan(self.tasks_view(), pool@, tip),
                spec_scan_events(s0, obs, tip) == events@ + spec_scan_events(
                    self.tasks_view(),
                    pool@,
                    tip,
                ),
            decreases pool@.len(),
        {
            let ghost pre_pool = pool@;
            let (id, view) = pool.remove(0);
            let ev = apply_observation(&mut self.txs, id, view, tip);
            events.push(ev);
            proof {
                assert(pool@ =~= pre_pool.drop_first());
                assert(spec_scan_events(s0, obs, tip) =~= events@ + spec_scan_events(
                    self.tasks_view(),
                    pool@,
                    tip,
                ));
            }
        }
        proof {
            assert(spec_scan_events(s0, obs, tip) =~= events@);
        }
        events
    }

    /// One scheduling tick over the current cache: reap, cancel a stale
    /// job, dispatch. `finished` says whether the running computation (if
    /// any) has completed; the returned action tells the caller what to do
    /// with the real computation handle.
    pub fn check_jobs(&mut self, finished: bool) -> (action: ProverAction)
        ensures
            (final(self).job_view(), action) == spec_check_jobs(
                old(self).job_view(),
                finished,
                old(self).tasks_view(),
            ),
            (final(self).job_view() matches Some(j) ==> has_id(old(self).tasks_view(), j)),
            final(self).tasks_view() == old(self).tasks_view(),
    {
        self.prover.check_jobs(finished, &self.txs)
    }
}

} // verus!
