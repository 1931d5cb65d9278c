//! The candidate cache: which pending transactions are still eligible for a
//! proof upgrade, each paired with the chain state it was last observed
//! against.
//!
//! The cache is keyed by transaction identity and never regresses: an update
//! observed against an older chain height is ignored, and an update that
//! changes nothing (same height, same block) is ignored as well. Entries are
//! kept in discovery order, which makes candidate selection deterministic:
//! the earliest-discovered candidate is offered first.

use vstd::prelude::*;

verus! {

/// Identity of a pending transaction, stable across polls.
///
/// The caller maps whatever identifier its node uses onto this value and
/// keeps the mapping; the cache only compares identities for equality.
#[derive(Clone, Copy, PartialEq, Eq, Hash, Debug, Structural)]
pub struct TxId {
    pub value: u64,
}

/// The chain state a candidate was last observed against.
///
/// `height` orders observations; `digest` stands for the block's content, so
/// that two references at the same height but with differing digests reveal
/// a reorg.
#[derive(Clone, Copy, PartialEq, Eq, Debug, Structural)]
pub struct BlockRef {
    pub height: u64,
    pub digest: u64,
}

/// The proof attached to a pending transaction, as far as the cache cares:
/// either the expensive intermediate form together with the witness data `W`
/// needed to build the canonical proof, or already the canonical form.
pub enum ProofForm<W> {
    IntermediateCollection(W),
    Canonical,
}

/// A pending transaction as observed in the pool: its kernel and its proof.
pub struct Transaction<K, W> {
    pub kernel: K,
    pub proof: ProofForm<W>,
}

/// A cache entry: a transaction eligible for upgrade, with the witness data
/// for the upgrade and the chain state it was last observed against.
pub struct TxTask<K, W> {
    pub id: TxId,
    pub kernel: K,
    pub proof: W,
    pub synced_block: BlockRef,
}

/// What a call to [`Tasks::record`] did: `Discovered` on first insertion,
/// `Updated` on replacement. A call that changed nothing emits no event.
#[derive(Clone, Copy, PartialEq, Eq, Debug, Structural)]
pub enum RecordEvent {
    Discovered,
    Updated,
}

/// No two entries share an identity.
pub open spec fn ids_distinct<K, W>(s: Seq<TxTask<K, W>>) -> bool {
    forall|i: int, j: int| 0 <= i < j < s.len() ==> s[i].id != s[j].id
}

/// Some entry carries the identity `id`.
pub open spec fn has_id<K, W>(s: Seq<TxTask<K, W>>, id: TxId) -> bool {
    exists|i: int| 0 <= i < s.len() && s[i].id == id
}

/// The index of the entry carrying `id`; meaningful when `has_id` holds and
/// the identities are distinct.
pub open spec fn idx_of<K, W>(s: Seq<TxTask<K, W>>, id: TxId) -> int {
    choose|i: int| 0 <= i < s.len() && s[i].id == id
}

/// The entry carrying `id`; meaningful when `has_id` holds.
pub open spec fn entry_of<K, W>(s: Seq<TxTask<K, W>>, id: TxId) -> TxTask<K, W> {
    s[idx_of(s, id)]
}

/// The entry that recording `(id, tx, b)` stores.
pub open spec fn spec_task<K, W>(id: TxId, tx: Transaction<K, W>, b: BlockRef) -> TxTask<K, W> {
    TxTask { id, kernel: tx.kernel, proof: tx.proof->0, synced_block: b }
}

/// Recording `(id, _, b)` changes nothing: the identity is already present
/// and the observation is stale (older height) or a duplicate (same block).
pub open spec fn record_is_noop<K, W>(s: Seq<TxTask<K, W>>, id: TxId, b: BlockRef) -> bool {
    has_id(s, id) && {
        let e = entry_of(s, id);
        b.height < e.synced_block.height || b == e.synced_block
    }
}

/// The cache contents after recording `(id, tx, b)`: appended when the
/// identity is new, unchanged on a no-op, replaced in place otherwise
/// (higher height, or a reorg at the same height).
pub open spec fn spec_record<K, W>(
    s: Seq<TxTask<K, W>>,
    id: TxId,
    tx: Transaction<K, W>,
    b: BlockRef,
) -> Seq<TxTask<K, W>> {
    if !has_id(s, id) {
        s.push(spec_task(id, tx, b))
    } else if record_is_noop(s, id, b) {
        s
    } else {
        s.update(idx_of(s, id), spec_task(id, tx, b))
    }
}

/// The event that recording `(id, _, b)` emits, if any.
pub open spec fn spec_record_event<K, W>(
    s: Seq<TxTask<K, W>>,
    id: TxId,
    b: BlockRef,
) -> Option<RecordEvent> {
    if !has_id(s, id) {
        Some(RecordEvent::Discovered)
    } else if record_is_noop(s, id, b) {
        None
    } else {
        Some(RecordEvent::Updated)
    }
}

/// The cache contents after forgetting `id`: the entry removed if present,
/// everything else kept in order.
pub open spec fn spec_forget<K, W>(s: Seq<TxTask<K, W>>, id: TxId) -> Seq<TxTask<K, W>> {
    if has_id(s, id) {
        s.remove(idx_of(s, id))
    } else {
        s
    }
}

impl<K, W> TxTask<K, W> {
    /// Build a cache entry from a transaction whose proof is still in the
    /// intermediate form. Transactions already carrying a canonical proof
    /// have nothing to upgrade and are not accepted here.
    pub fn new(id: TxId, transaction: Transaction<K, W>, synced_block: BlockRef) -> (t: Self)
        requires
            transaction.proof is IntermediateCollection,
        ensures
            t == spec_task(id, transaction, synced_block),
    {
        let proof = match transaction.proof {
            ProofForm::IntermediateCollection(w) => w,
            ProofForm::Canonical => vstd::pervasive::unreached(),
        };
        TxTask { id, kernel: transaction.kernel, proof, synced_block }
    }
}

/// The candidate cache. Its contents are viewed as a sequence of entries in
/// discovery order; identities are unique.
pub struct Tasks<K, W> {
    transactions: Vec<TxTask<K, W>>,
}

impl<K, W> View for Tasks<K, W> {
    type V = Seq<TxTask<K, W>>;

    closed spec fn view(&self) -> Seq<TxTask<K, W>> {
        self.transactions@
    }
}

impl<K, W> Tasks<K, W> {
    /// The cache's invariant: no identity occurs twice.
    pub open spec fn wf(self) -> bool {
        ids_distinct(self@)
    }

    /// An empty cache.
    pub fn new() -> (t: Self)
        ensures
            t@ == Seq::<TxTask<K, W>>::empty(),
            t.wf(),
    {
        Tasks { transactions: Vec::new() }
    }

    /// The index of the entry carrying `id`, if any; entries before it carry
    /// other identities.
    fn index_of(&self, id: TxId) -> (r: Option<usize>)
        ensures
            match r {
                Some(i) => i < self@.len() && self@[i as int].id == id,
                None => !has_id(self@, id),
            },
    {
        let n = self.transactions.len();
        let mut i: usize = 0;
        while i < n
            invariant
                i <= n,
                n == self@.len(),
                forall|j: int| 0 <= j < i ==> self@[j].id != id,
            decreases n - i,
        {
            if self.transactions[i].id == id {
                return Some(i);
            }
            i = i + 1;
        }
        None
    }

    /// Is `id` present in the cache?
    pub fn has(&self, id: TxId) -> (r: bool)
        ensures
            r == has_id(self@, id),
    {
        match self.index_of(id) {
            Some(_) => true,
            None => false,
        }
    }

    /// Insert or replace the candidate for `id`, observed against
    /// `synced_block`.
    ///
    /// A new identity is appended and reported as `Discovered`. An existing
    /// entry is replaced — and reported as `Updated` — only when the
    /// observation moves forward: a higher height, or a differing block at
    /// the same height (a reorg). A stale observation (lower height) and an
    /// exact duplicate change nothing and emit no event.
    pub fn record(
        &mut self,
        id: TxId,
        transaction: Transaction<K, W>,
        synced_block: BlockRef,
    ) -> (ev: Option<RecordEvent>)
        requires
            old(self).wf(),
            transaction.proof is IntermediateCollection,
        ensures
            final(self).wf(),
            final(self)@ == spec_record(old(self)@, id, transaction, synced_block),
            ev == spec_record_event(old(self)@, id, synced_block),
    {
        match self.index_of(id) {
            None => {
                proof {
                    lemma_record_wf(self@, id, transaction, synced_block);
                }
                self.transactions.push(TxTask::new(id, transaction, synced_block));
                Some(RecordEvent::Discovered)
            },
            Some(i) => {
                proof {
                    lemma_idx_of_unique(self@, id, i as int);
                    lemma_record_wf(self@, id, transaction, synced_block);
                }
                let old_block = self.transactions[i].synced_block;
                if synced_block.height < old_block.height {
                    // Stale: observed against an older chain state.
                    None
                } else if synced_block == old_block {
                    // Duplicate: nothing changed since the last observation.
                    None
                } else {
                    // Higher height, or a reorg at the same height.
                    self.transactions[i] = TxTask::new(id, transaction, synced_block);
                    Some(RecordEvent::Updated)
                }
            },
        }
    }

    /// Remove the candidate for `id`, if present; report whether an entry
    /// was removed. Forgetting an absent identity changes nothing.
    pub fn forget(&mut self, id: TxId) -> (removed: bool)
        requires
            old(self).wf(),
        ensures
            final(self).wf(),
            final(self)@ == spec_forget(old(self)@, id),
            removed == has_id(old(self)@, id),
            !has_id(final(self)@, id),
    {
        match self.index_of(id) {
            Some(i) => {
                proof {
                    lemma_idx_of_unique(self@, id, i as int);
                    lemma_forget_evicts(self@, id);
                }
                self.transactions.remove(i);
                true
            },
            None => false,
        }
    }

    /// The candidate to upgrade next, if any: the earliest-discovered entry.
    ///
    /// Entries are kept in discovery order and replacement happens in place,
    /// so this selection rule is deterministic.
    pub fn best_candidate(&self) -> (r: Option<&TxTask<K, W>>)
        ensures
            self@.len() == 0 <==> r is None,
            (r matches Some(t) ==> *t == self@[0]),
    {
        if self.transactions.len() == 0 {
            None
        } else {
            Some(&self.transactions[0])
        }
    }

    /// How many candidates are cached.
    pub fn len(&self) -> (n: usize)
        ensures
            n == self@.len(),
    {
        self.transactions.len()
    }
}

/// With distinct identities, the entry found at `i` is the entry of its
/// identity: `idx_of` and `entry_of` agree with it.
pub proof fn lemma_idx_of_unique<K, W>(s: Seq<TxTask<K, W>>, id: TxId, i: int)
    requires
        ids_distinct(s),
        0 <= i < s.len(),
        s[i].id == id,
    ensures
        has_id(s, id),
        idx_of(s, id) == i,
        entry_of(s, id) == s[i],
        forall|m: int| 0 <= m < s.len() && m != i ==> s[m].id != id,
{
    assert(has_id(s, id));
    let j = idx_of(s, id);
    assert(0 <= j < s.len() && s[j].id == id);
    assert forall|m: int| 0 <= m < s.len() && m != i implies s[m].id != id by {
        if m < i {
            assert(s[m].id != s[i].id);
        } else {
            assert(s[i].id != s[m].id);
        }
    }
}

/// Recording preserves the cache invariant: identities stay distinct.
pub proof fn lemma_record_wf<K, W>(s: Seq<TxTask<K, W>>, id: TxId, tx: Transaction<K, W>, b: BlockRef)
    requires
        ids_distinct(s),
    ensures
        ids_distinct(spec_record(s, id, tx, b)),
{
    let s2 = spec_record(s, id, tx, b);
    if !has_id(s, id) {
        assert forall|i: int, j: int| 0 <= i < j < s2.len() implies s2[i].id != s2[j].id by {
            if j < s.len() {
                assert(s[i].id != s[j].id);
            } else {
                assert(s2[j].id == id);
                assert(!(0 <= i < s.len() && s[i].id == id));
            }
        }
    } else if record_is_noop(s, id, b) {
    } else {
        let k = idx_of(s, id);
        assert(0 <= k < s.len() && s[k].id == id);
        assert forall|i: int, j: int| 0 <= i < j < s2.len() implies s2[i].id != s2[j].id by {
            assert(s2[i].id == s[i].id);
            assert(s2[j].id == s[j].id);
            assert(s[i].id != s[j].id);
        }
    }
}

/// One step of the no-regression law: a single `record` call never removes
/// an identity, and never lowers the chain height an entry was observed
/// against.
pub proof fn lemma_record_no_regression<K, W>(
    s: Seq<TxTask<K, W>>,
    id: TxId,
    tx: Transaction<K, W>,
    b: BlockRef,
    x: TxId,
)
    requires
        ids_distinct(s),
        has_id(s, x),
    ensures
        has_id(spec_record(s, id, tx, b), x),
        entry_of(spec_record(s, id, tx, b), x).synced_block.height
            >= entry_of(s, x).synced_block.height,
{
    let s2 = spec_record(s, id, tx, b);
    let m = idx_of(s, x);
    assert(0 <= m < s.len() && s[m].id == x);
    lemma_record_wf(s, id, tx, b);
    if !has_id(s, id) {
        assert(s2[m] == s[m]);
        lemma_idx_of_unique(s2, x, m);
        lemma_idx_of_unique(s, x, m);
    } else if record_is_noop(s, id, b) {
    } else {
        let k = idx_of(s, id);
        assert(0 <= k < s.len() && s[k].id == id);
        lemma_idx_of_unique(s, id, k);
        if x == id {
            assert(s2[k].id == id);
            lemma_idx_of_unique(s2, id, k);
            assert(entry_of(s2, id).synced_block == b);
            assert(entry_of(s, id) == s[k]);
            assert(!(b.height < s[k].synced_block.height));
        } else {
            assert(m != k);
            assert(s2[m] == s[m]);
            lemma_idx_of_unique(s2, x, m);
            lemma_idx_of_unique(s, x, m);
        }
    }
}

/// The cache after a whole sequence of `record` calls, applied in order.
pub open spec fn spec_record_all<K, W>(
    s: Seq<TxTask<K, W>>,
    calls: Seq<(TxId, Transaction<K, W>, BlockRef)>,
) -> Seq<TxTask<K, W>>
    decreases calls.len(),
{
    if calls.len() == 0 {
        s
    } else {
        spec_record_all(
            spec_record(s, calls[0].0, calls[0].1, calls[0].2),
            calls.drop_first(),
        )
    }
}

/// No-regression: over any sequence of `record` calls, an entry once cached
/// stays cached and the chain height it was observed against never
/// decreases.
pub proof fn lemma_record_all_no_regression<K, W>(
    s: Seq<TxTask<K, W>>,
    calls: Seq<(TxId, Transaction<K, W>, BlockRef)>,
    x: TxId,
)
    requires
        ids_distinct(s),
        has_id(s, x),
    ensures
        ids_distinct(spec_record_all(s, calls)),
        has_id(spec_record_all(s, calls), x),
        entry_of(spec_record_all(s, calls), x).synced_block.height
            >= entry_of(s, x).synced_block.height,
    decreases calls.len(),
{
    if calls.len() > 0 {
        let s1 = spec_record(s, calls[0].0, calls[0].1, calls[0].2);
        lemma_record_wf(s, calls[0].0, calls[0].1, calls[0].2);
        lemma_record_no_regression(s, calls[0].0, calls[0].1, calls[0].2, x);
        lemma_record_all_no_regression(s1, calls.drop_first(), x);
    }
}

/// Idempotence: recording the same `(id, tx, b)` a second time changes
/// nothing and emits no event.
pub proof fn lemma_record_idempotent<K, W>(
    s: Seq<TxTask<K, W>>,
    id: TxId,
    tx: Transaction<K, W>,
    b: BlockRef,
)
    requires
        ids_distinct(s),
    ensures
        spec_record(spec_record(s, id, tx, b), id, tx, b) == spec_record(s, id, tx, b),
        spec_record_event(spec_record(s, id, tx, b), id, b) is None,
{
    let s1 = spec_record(s, id, tx, b);
    lemma_record_wf(s, id, tx, b);
    if !has_id(s, id) {
        let n = s.len() as int;
        assert(s1[n].id == id);
        lemma_idx_of_unique(s1, id, n);
        assert(entry_of(s1, id).synced_block == b);
        assert(record_is_noop(s1, id, b));
    } else if record_is_noop(s, id, b) {
        assert(s1 == s);
    } else {
        let k = idx_of(s, id);
        assert(0 <= k < s.len() && s[k].id == id);
        assert(s1[k].id == id);
        lemma_idx_of_unique(s1, id, k);
        assert(entry_of(s1, id).synced_block == b);
        assert(record_is_noop(s1, id, b));
    }
}

/// Forgetting an identity removes it for good: it is absent afterwards, the
/// other entries are kept in order, and the invariant is preserved.
pub proof fn lemma_forget_evicts<K, W>(s: Seq<TxTask<K, W>>, id: TxId)
    requires
        ids_distinct(s),
    ensures
        ids_distinct(spec_forget(s, id)),
        !has_id(spec_forget(s, id), id),
        forall|x: TxId| x != id && has_id(s, x) ==> has_id(spec_forget(s, id), x),
        forall|x: TxId| has_id(spec_forget(s, id), x) ==> has_id(s, x),
        forall|m: int| 0 <= m < spec_forget(s, id).len() ==> spec_forget(s, id)[m].id != id,
{
    let s2 = spec_forget(s, id);
    if !has_id(s, id) {
        assert forall|m: int| 0 <= m < s2.len() implies s2[m].id != id by {
            assert(!(0 <= m < s.len() && s[m].id == id));
        }
    }
    if has_id(s, id) {
        let k = idx_of(s, id);
        assert(0 <= k < s.len() && s[k].id == id);
        lemma_idx_of_unique(s, id, k);
        assert forall|i: int, j: int| 0 <= i < j < s2.len() implies s2[i].id != s2[j].id by {
            let i0: int = if i < k { i } else { i + 1 };
            let j0: int = if j < k { j } else { j + 1 };
            assert(s2[i].id == s[i0].id);
            assert(s2[j].id == s[j0].id);
            assert(s[i0].id != s[j0].id);
        }
        assert forall|m: int| 0 <= m < s2.len() implies s2[m].id != id by {
            let m0: int = if m < k { m } else { m + 1 };
            assert(s2[m].id == s[m0].id);
            assert(m0 != k);
        }
        assert forall|x: TxId| x != id && has_id(s, x) implies has_id(s2, x) by {
            let m = choose|m: int| 0 <= m < s.len() && s[m].id == x;
            assert(m != k);
            if m < k {
                assert(s2[m].id == x);
            } else {
                assert(s2[m - 1].id == x);
            }
        }
        assert forall|x: TxId| has_id(s2, x) implies has_id(s, x) by {
            let m = choose|m: int| 0 <= m < s2.len() && s2[m].id == x;
            let m0: int = if m < k { m } else { m + 1 };
            assert(s[m0].id == x);
        }
    }
}

} // verus!
