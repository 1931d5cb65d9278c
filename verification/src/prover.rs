//! The single-slot job scheduler.
//!
//! At most one background upgrade computation is in flight at any time. On
//! every tick the scheduler first reaps a finished job, then checks that a
//! still-running job's target is still in the candidate cache — cancelling
//! the job if it is not — and only dispatches a new job when the slot is
//! empty after those two steps. A tick that cancels does not dispatch; the
//! next tick will.
//!
//! The scheduler only decides: spawning, joining and aborting the actual
//! computation is the caller's job, directed by the [`ProverAction`] each
//! tick returns.

use vstd::prelude::*;

use crate::tasks::{has_id, Tasks, TxId, TxTask};

verus! {

/// What a scheduling tick asks the caller to do.
#[derive(Clone, Copy, PartialEq, Eq, Debug, Structural)]
pub enum ProverAction {
    /// No job is running and no candidate is cached: nothing to do.
    Idle,
    /// Start the background upgrade computation for this candidate.
    Started(TxId),
    /// The running job's target is still eligible: leave it running.
    KeepRunning,
    /// The running job's target left the cache: abort its computation.
    Cancelled(TxId),
}

/// The job slot after reaping: empty if the computation has finished.
pub open spec fn spec_cleanup(cur: Option<TxId>, finished: bool) -> Option<TxId> {
    if finished {
        None
    } else {
        cur
    }
}

/// One scheduling tick over the job slot `cur` and the cache contents `s`:
/// the slot afterwards, and the action the caller must take. After reaping,
/// a surviving job is kept if its target is still cached and cancelled
/// otherwise; an empty slot dispatches the earliest-discovered candidate.
pub open spec fn spec_check_jobs<K, W>(
    cur: Option<TxId>,
    finished: bool,
    s: Seq<TxTask<K, W>>,
) -> (Option<TxId>, ProverAction) {
    match spec_cleanup(cur, finished) {
        Some(id) => if has_id(s, id) {
            (Some(id), ProverAction::KeepRunning)
        } else {
            (None, ProverAction::Cancelled(id))
        },
        None => if s.len() == 0 {
            (None, ProverAction::Idle)
        } else {
            (Some(s[0].id), ProverAction::Started(s[0].id))
        },
    }
}

/// The scheduler's state: the single job slot, viewed as the identity the
/// running computation targets, if one is running.
pub struct Prover {
    current_task: Option<TxId>,
}

impl View for Prover {
    type V = Option<TxId>;

    closed spec fn view(&self) -> Option<TxId> {
        self.current_task
    }
}

impl Prover {
    /// A scheduler with an empty job slot.
    pub fn new() -> (p: Self)
        ensures
            p@ is None,
    {
        Prover { current_task: None }
    }

    /// The identity the running job targets, if one is running.
    pub fn current(&self) -> (r: Option<TxId>)
        ensures
            r == self@,
    {
        self.current_task
    }

    /// Reap: empty the slot once the computation has finished, so its
    /// outcome is collected and the slot is free again.
    fn cleanup_finished_task(&mut self, finished: bool)
        ensures
            final(self)@ == spec_cleanup(old(self)@, finished),
    {
        if finished {
            self.current_task = None;
        }
    }

    /// Staleness check: if a job occupies the slot, report whether its
    /// target is still cached; a job whose target is gone is cancelled and
    /// the slot emptied. Reports nothing when the slot is empty.
    fn has_active_task<K, W>(&mut self, tasks: &Tasks<K, W>) -> (r: Option<ProverAction>)
        ensures
            match old(self)@ {
                None => r is None && final(self)@ == old(self)@,
                Some(id) => if has_id(tasks@, id) {
                    r == Some(ProverAction::KeepRunning) && final(self)@ == old(self)@
                } else {
                    r == Some(ProverAction::Cancelled(id)) && final(self)@ is None
                },
            },
    {
        match self.current_task {
            None => None,
            Some(id) => {
                if tasks.has(id) {
                    Some(ProverAction::KeepRunning)
                } else {
                    self.current_task = None;
                    Some(ProverAction::Cancelled(id))
                }
            },
        }
    }

    /// Dispatch: fill the empty slot with the cache's earliest-discovered
    /// candidate, if there is one.
    fn start_next_task<K, W>(&mut self, tasks: &Tasks<K, W>) -> (r: ProverAction)
        requires
            old(self)@ is None,
        ensures
            (final(self)@, r) == spec_check_jobs(old(self)@, false, tasks@),
    {
        match tasks.best_candidate() {
            None => ProverAction::Idle,
            Some(t) => {
                let id = t.id;
                self.current_task = Some(id);
                ProverAction::Started(id)
            },
        }
    }

    /// One scheduling tick: reap a finished job, cancel a stale one, and
    /// dispatch a new one only if the slot is empty after that. `finished`
    /// says whether the running computation (if any) has completed; the
    /// returned action tells the caller what to do with the real
    /// computation handle.
    pub fn check_jobs<K, W>(&mut self, finished: bool, tasks: &Tasks<K, W>) -> (action:
        ProverAction)
        ensures
            (final(self)@, action) == spec_check_jobs(old(self)@, finished, tasks@),
            (final(self)@ matches Some(j) ==> has_id(tasks@, j)),
            (action matches ProverAction::Started(j) ==> spec_cleanup(old(self)@, finished)
                is None),
    {
        proof {
            if tasks@.len() > 0 {
                assert(has_id(tasks@, tasks@[0].id));
            }
        }
        self.cleanup_finished_task(finished);
        match self.has_active_task(tasks) {
            Some(action) => action,
            None => self.start_next_task(tasks),
        }
    }
}

/// Single-flight: a tick starts a new computation only when the job slot is
/// empty after reaping — never beside a still-live one — and the started
/// job then occupies the slot, so at most one computation is ever in
/// flight.
pub proof fn lemma_single_flight<K, W>(cur: Option<TxId>, finished: bool, s: Seq<TxTask<K, W>>)
    ensures
        (spec_check_jobs(cur, finished, s).1 matches ProverAction::Started(j) ==> spec_cleanup(
            cur,
            finished,
        ) is None && spec_check_jobs(cur, finished, s).0 == Some(j)),
        cur is Some && !finished ==> spec_check_jobs(cur, finished, s).1 !is Started,
{
}

/// Cancellation correctness: after a tick the slot holds a job only if its
/// target is still cached; in particular, once the running job's target has
/// been forgotten, the tick cancels that job and returns to idle instead of
/// dispatching in the same tick.
pub proof fn lemma_cancellation<K, W>(cur: Option<TxId>, finished: bool, s: Seq<TxTask<K, W>>)
    ensures
        (spec_check_jobs(cur, finished, s).0 matches Some(j) ==> has_id(s, j)),
        (match cur {
            Some(id) => !finished && !has_id(s, id) ==> spec_check_jobs(cur, finished, s) == (
                None::<TxId>,
                ProverAction::Cancelled(id),
            ),
            None => true,
        }),
{
    if s.len() > 0 {
        assert(has_id(s, s[0].id));
    }
}

} // verus!
