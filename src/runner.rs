use vstd::prelude::*;

use crate::record::{JobError, JobRecord, JobRecordView};
use crate::retry::{decide_spec, Decision, RetryPolicy};
use crate::store::{
    claimable, new_row,    failed_record, first_claimable, row_at, saturating_sum, table_wf, EnqueueError, QueueTable,
    RowView, TableView,
};

verus! {

/// What an execution slot is doing.
#[derive(Clone, Copy, Debug, PartialEq, Eq, Structural)]
pub enum SlotState {
    Idle,
    /// Running the job of the row with this id, whose lock the slot holds.
    Executing(u64),
}

/// What a finished attempt did to its row, for a logging or metrics sink.
#[derive(Clone, Copy, Debug, PartialEq, Eq, Structural)]
pub enum Event {
    /// The row was deleted.
    Succeeded(u64),
    /// The row was rescheduled for the given time.
    WillRetry(u64, u64),
    /// The row was marked `Failed`.
    FailedPermanently(u64),
}

/// Why a slot operation was refused.
#[derive(Clone, Copy, Debug, PartialEq, Eq, Structural)]
pub enum RunnerError {
    /// The slot does not exist or is not executing a job.
    NotExecuting,
}

pub struct RunnerView {
    pub table: TableView,
    pub slots: Seq<SlotState>,
    pub shutting_down: bool,
    pub policy: RetryPolicy,
}

/// The lock of the row with id `id` is held.
pub open spec fn held(t: TableView, id: u64) -> bool {
    exists|i: int| row_at(t, i, id) && t.rows[i].locked
}

/// The lock of every row is held by exactly the slot that executes it: each
/// executing slot holds its row's lock, no two slots execute the same row,
/// and no lock is held without a slot executing that row.
pub open spec fn runner_wf(v: RunnerView) -> bool {
    &&& table_wf(v.table)
    &&& forall|s: int|
        0 <= s < v.slots.len() && (#[trigger] v.slots[s]) is Executing ==> held(
            v.table,
            v.slots[s]->Executing_0,
        )
    &&& forall|a: int, b: int|
        0 <= a < v.slots.len() && 0 <= b < v.slots.len() && a != b && (#[trigger] v.slots[a]) is Executing
            && (#[trigger] v.slots[b]) is Executing ==> v.slots[a]->Executing_0 != v.slots[b]->Executing_0
    &&& forall|i: int|
        0 <= i < v.table.rows.len() && (#[trigger] v.table.rows[i]).locked ==> exists|s: int|
            0 <= s < v.slots.len() && #[trigger] v.slots[s] == SlotState::Executing(
                v.table.rows[i].record.id,
            )
}

/// The number of failures a row has after one more, held at `u32::MAX`.
pub open spec fn failures_after(r: JobRecordView) -> u32 {
    if r.retry_count < u32::MAX {
        (r.retry_count + 1) as u32
    } else {
        r.retry_count
    }
}

/// The event reported for a failed attempt at `now` on row `id`.
pub open spec fn failure_event(id: u64, d: Decision, now: u64) -> Event {
    match d {
        Decision::RetryAfter(delay) => Event::WillRetry(id, saturating_sum(now, delay)),
        Decision::PermanentFailure => Event::FailedPermanently(id),
    }
}

/// Every slot is idle: no job is executing.
pub open spec fn drained(slots: Seq<SlotState>) -> bool {
    forall|s: int| 0 <= s < slots.len() ==> #[trigger] slots[s] == SlotState::Idle
}

proof fn lemma_ids_differ(t: TableView, i: int, j: int)
    requires
        table_wf(t),
        0 <= i < t.rows.len(),
        0 <= j < t.rows.len(),
        i != j,
    ensures
        t.rows[i].record.id != t.rows[j].record.id,
{
    if i < j {
        assert(t.rows[i].record.id < t.rows[j].record.id);
    } else {
        assert(t.rows[j].record.id < t.rows[i].record.id);
    }
}

/// Locking row `i` for the idle slot `slot` keeps the invariant.
proof fn lemma_claim_keeps(v: RunnerView, slot: int, i: int, w: RunnerView)
    requires
        runner_wf(v),
        0 <= slot < v.slots.len(),
        v.slots[slot] == SlotState::Idle,
        0 <= i < v.table.rows.len(),
        !v.table.rows[i].locked,
        table_wf(w.table),
        w.table.rows == v.table.rows.update(i, RowView { record: v.table.rows[i].record, locked: true }),
        w.slots == v.slots.update(slot, SlotState::Executing(v.table.rows[i].record.id)),
    ensures
        runner_wf(w),
{
    let id = v.table.rows[i].record.id;
    assert forall|s: int| 0 <= s < w.slots.len() && (#[trigger] w.slots[s]) is Executing implies held(
        w.table,
        w.slots[s]->Executing_0,
    ) by {
        if s == slot {
            assert(row_at(w.table, i, id) && w.table.rows[i].locked);
        } else {
            assert(v.slots[s] is Executing);
            let j = choose|j: int| row_at(v.table, j, v.slots[s]->Executing_0) && v.table.rows[j].locked;
            assert(j != i);
            assert(row_at(w.table, j, w.slots[s]->Executing_0) && w.table.rows[j].locked);
        }
    }
    assert forall|a: int, b: int|
        0 <= a < w.slots.len() && 0 <= b < w.slots.len() && a != b && (#[trigger] w.slots[a]) is Executing
            && (#[trigger] w.slots[b]) is Executing implies w.slots[a]->Executing_0
        != w.slots[b]->Executing_0 by {
        if a == slot || b == slot {
            let o = if a == slot { b } else { a };
            assert(v.slots[o] is Executing);
            let j = choose|j: int| row_at(v.table, j, v.slots[o]->Executing_0) && v.table.rows[j].locked;
            assert(j != i);
            lemma_ids_differ(v.table, i, j);
        } else {
            assert(v.slots[a] is Executing && v.slots[b] is Executing);
        }
    }
    assert forall|k: int| 0 <= k < w.table.rows.len() && (#[trigger] w.table.rows[k]).locked implies exists|s: int|
        0 <= s < w.slots.len() && #[trigger] w.slots[s] == SlotState::Executing(
            w.table.rows[k].record.id,
        ) by {
        if k == i {
            assert(w.slots[slot] == SlotState::Executing(id));
        } else {
            assert(v.table.rows[k].locked);
            let s = choose|s: int|
                0 <= s < v.slots.len() && #[trigger] v.slots[s] == SlotState::Executing(
                    v.table.rows[k].record.id,
                );
            assert(s != slot);
            assert(w.slots[s] == SlotState::Executing(w.table.rows[k].record.id));
        }
    }
}

/// Unlocking the row of slot `slot`, with its record replaced by one of the
/// same id, and making the slot idle keeps the invariant.
proof fn lemma_unlock_keeps(v: RunnerView, slot: int, i: int, rec: JobRecordView, w: RunnerView)
    requires
        runner_wf(v),
        0 <= slot < v.slots.len(),
        v.slots[slot] == SlotState::Executing(v.table.rows[i].record.id),
        0 <= i < v.table.rows.len(),
        rec.id == v.table.rows[i].record.id,
        table_wf(w.table),
        w.table.rows == v.table.rows.update(i, RowView { record: rec, locked: false }),
        w.slots == v.slots.update(slot, SlotState::Idle),
    ensures
        runner_wf(w),
{
    let id = v.table.rows[i].record.id;
    assert forall|s: int| 0 <= s < w.slots.len() && (#[trigger] w.slots[s]) is Executing implies held(
        w.table,
        w.slots[s]->Executing_0,
    ) by {
        assert(s != slot);
        assert(v.slots[s] is Executing);
        let j = choose|j: int| row_at(v.table, j, v.slots[s]->Executing_0) && v.table.rows[j].locked;
        assert(v.slots[s]->Executing_0 != id);
        assert(j != i);
        assert(row_at(w.table, j, w.slots[s]->Executing_0) && w.table.rows[j].locked);
    }
    assert forall|a: int, b: int|
        0 <= a < w.slots.len() && 0 <= b < w.slots.len() && a != b && (#[trigger] w.slots[a]) is Executing
            && (#[trigger] w.slots[b]) is Executing implies w.slots[a]->Executing_0
        != w.slots[b]->Executing_0 by {
        assert(v.slots[a] is Executing && v.slots[b] is Executing);
    }
    assert forall|k: int| 0 <= k < w.table.rows.len() && (#[trigger] w.table.rows[k]).locked implies exists|s: int|
        0 <= s < w.slots.len() && #[trigger] w.slots[s] == SlotState::Executing(
            w.table.rows[k].record.id,
        ) by {
        assert(k != i);
        assert(v.table.rows[k].locked);
        let s = choose|s: int|
            0 <= s < v.slots.len() && #[trigger] v.slots[s] == SlotState::Executing(
                v.table.rows[k].record.id,
            );
        lemma_ids_differ(v.table, i, k);
        assert(s != slot);
        assert(w.slots[s] == SlotState::Executing(w.table.rows[k].record.id));
    }
}

/// Deleting the row of slot `slot` and making the slot idle keeps the
/// invariant.
proof fn lemma_remove_keeps(v: RunnerView, slot: int, i: int, w: RunnerView)
    requires
        runner_wf(v),
        0 <= slot < v.slots.len(),
        v.slots[slot] == SlotState::Executing(v.table.rows[i].record.id),
        0 <= i < v.table.rows.len(),
        table_wf(w.table),
        w.table.rows == v.table.rows.remove(i),
        w.slots == v.slots.update(slot, SlotState::Idle),
    ensures
        runner_wf(w),
{
    let id = v.table.rows[i].record.id;
    assert forall|s: int| 0 <= s < w.slots.len() && (#[trigger] w.slots[s]) is Executing implies held(
        w.table,
        w.slots[s]->Executing_0,
    ) by {
        assert(s != slot);
        assert(v.slots[s] is Executing);
        let j = choose|j: int| row_at(v.table, j, v.slots[s]->Executing_0) && v.table.rows[j].locked;
        assert(v.slots[s]->Executing_0 != id);
        assert(j != i);
        let k = if j < i { j } else { j - 1 };
        assert(w.table.rows[k] == v.table.rows[j]);
        assert(row_at(w.table, k, w.slots[s]->Executing_0) && w.table.rows[k].locked);
    }
    assert forall|a: int, b: int|
        0 <= a < w.slots.len() && 0 <= b < w.slots.len() && a != b && (#[trigger] w.slots[a]) is Executing
            && (#[trigger] w.slots[b]) is Executing implies w.slots[a]->Executing_0
        != w.slots[b]->Executing_0 by {
        assert(v.slots[a] is Executing && v.slots[b] is Executing);
    }
    assert forall|k: int| 0 <= k < w.table.rows.len() && (#[trigger] w.table.rows[k]).locked implies exists|s: int|
        0 <= s < w.slots.len() && #[trigger] w.slots[s] == SlotState::Executing(
            w.table.rows[k].record.id,
        ) by {
        let j = if k < i { k } else { k + 1 };
        assert(w.table.rows[k] == v.table.rows[j]);
        assert(v.table.rows[j].locked);
        let s = choose|s: int|
            0 <= s < v.slots.len() && #[trigger] v.slots[s] == SlotState::Executing(
                v.table.rows[j].record.id,
            );
        lemma_ids_differ(v.table, i, j);
        assert(s != slot);
        assert(w.slots[s] == SlotState::Executing(w.table.rows[k].record.id));
    }
}

/// No two slots ever execute the same row at once.
pub proof fn lemma_single_executor(v: RunnerView, a: int, b: int)
    requires
        runner_wf(v),
        0 <= a < v.slots.len(),
        0 <= b < v.slots.len(),
        a != b,
        v.slots[a] is Executing,
        v.slots[b] is Executing,
    ensures
        v.slots[a]->Executing_0 != v.slots[b]->Executing_0,
{
}

/// When every slot is idle no row lock is held: each job that was running has
/// been finalized or given back.
pub proof fn lemma_drained_holds_no_lock(v: RunnerView)
    requires
        runner_wf(v),
        drained(v.slots),
    ensures
        forall|i: int| 0 <= i < v.table.rows.len() ==> !(#[trigger] v.table.rows[i]).locked,
{
    assert forall|i: int| 0 <= i < v.table.rows.len() implies !(#[trigger] v.table.rows[i]).locked by {
        if v.table.rows[i].locked {
            let s = choose|s: int|
                0 <= s < v.slots.len() && #[trigger] v.slots[s] == SlotState::Executing(
                    v.table.rows[i].record.id,
                );
            assert(v.slots[s] == SlotState::Idle);
        }
    }
}

/// A pool of execution slots over one queue table. Each slot claims a row,
/// runs its job outside, and reports the outcome; the table's row locks are
/// the only coordination between slots.
pub struct Runner {
    store: QueueTable,
    slots: Vec<SlotState>,
    shutting_down: bool,
    policy: RetryPolicy,
}

impl View for Runner {
    type V = RunnerView;

    closed spec fn view(&self) -> RunnerView {
        RunnerView {
            table: self.store@,
            slots: self.slots@,
            shutting_down: self.shutting_down,
            policy: self.policy,
        }
    }
}

impl Runner {
    pub open spec fn wf(&self) -> bool {
        runner_wf(self@)
    }

    /// A runner with `pool_size` idle slots over an empty table.
    pub fn new(pool_size: usize, policy: RetryPolicy) -> (r: Runner)
        ensures
            r.wf(),
            r@.table.rows.len() == 0,
            r@.table.next_id == 1,
            r@.slots.len() == pool_size,
            drained(r@.slots),
            !r@.shutting_down,
            r@.policy == policy,
    {
        let mut slots: Vec<SlotState> = Vec::new();
        let mut n: usize = 0;
        while n < pool_size
            invariant
                n <= pool_size,
                slots@.len() == n,
                drained(slots@),
            decreases pool_size - n,
        {
            slots.push(SlotState::Idle);
            n = n + 1;
        }
        Runner { store: QueueTable::new(), slots, shutting_down: false, policy }
    }

    pub fn pool_size(&self) -> (r: usize)
        ensures
            r == self@.slots.len(),
    {
        self.slots.len()
    }

    pub fn slot_state(&self, slot: usize) -> (r: SlotState)
        requires
            slot < self@.slots.len(),
        ensures
            r == self@.slots[slot as int],
    {
        self.slots[slot]
    }

    pub fn is_shutting_down(&self) -> (r: bool)
        ensures
            r == self@.shutting_down,
    {
        self.shutting_down
    }

    pub fn policy(&self) -> (r: RetryPolicy)
        ensures
            r == self@.policy,
    {
        self.policy
    }

    /// The queue table, for inspection.
    pub fn store(&self) -> (r: &QueueTable)
        ensures
            r@ == self@.table,
    {
        &self.store
    }

    /// Add a job to the table, as `QueueTable::enqueue` does.
    pub fn enqueue(&mut self, job_type: String, payload: Vec<u8>, now: u64) -> (r: Result<u64, EnqueueError>)
        requires
            old(self).wf(),
        ensures
            final(self).wf(),
            final(self)@.slots == old(self)@.slots,
            final(self)@.shutting_down == old(self)@.shutting_down,
            final(self)@.policy == old(self)@.policy,
            old(self)@.table.next_id == u64::MAX ==> r == Err::<u64, EnqueueError>(EnqueueError::Storage)
                && final(self)@.table == old(self)@.table,
            old(self)@.table.next_id < u64::MAX ==> r == Ok::<u64, EnqueueError>(
                old(self)@.table.next_id as u64,
            ) && final(self)@.table.next_id == old(self)@.table.next_id + 1
                && final(self)@.table.rows == old(self)@.table.rows.push(
                new_row(old(self)@.table.next_id as u64, job_type@, payload@, now),
            ),
    {
        let ghost v = self@;
        let r = self.store.enqueue(job_type, payload, now);
        proof {
            let w = self@;
            if r is Ok {
                let n = v.table.rows.len();
                assert forall|i: int| 0 <= i < w.table.rows.len() && (#[trigger] w.table.rows[i]).locked implies exists|s: int|
                    0 <= s < w.slots.len() && #[trigger] w.slots[s] == SlotState::Executing(
                        w.table.rows[i].record.id,
                    ) by {
                    assert(i < n);
                    assert(w.table.rows[i] == v.table.rows[i]);
                }
                assert forall|s: int| 0 <= s < w.slots.len() && (#[trigger] w.slots[s]) is Executing implies held(
                    w.table,
                    w.slots[s]->Executing_0,
                ) by {
                    let j = choose|j: int| row_at(v.table, j, v.slots[s]->Executing_0) && v.table.rows[j].locked;
                    assert(w.table.rows[j] == v.table.rows[j]);
                    assert(row_at(w.table, j, w.slots[s]->Executing_0));
                }
            }
        }
        r
    }

    /// Let slot `slot` claim the next claimable row at `now`. Nothing is
    /// claimed once shutdown has begun, nor by a slot that is already busy.
    pub fn claim(&mut self, slot: usize, now: u64) -> (r: Option<JobRecord>)
        requires
            old(self).wf(),
        ensures
            final(self).wf(),
            final(self)@.shutting_down == old(self)@.shutting_down,
            final(self)@.policy == old(self)@.policy,
            final(self)@.table.next_id == old(self)@.table.next_id,
            (old(self)@.shutting_down || slot >= old(self)@.slots.len() || old(self)@.slots[slot as int]
                is Executing) ==> r is None && final(self)@ == old(self)@,
            r is None ==> final(self)@ == old(self)@,
            (!old(self)@.shutting_down && slot < old(self)@.slots.len() && old(self)@.slots[slot as int]
                is Idle) ==> match r {
                None => forall|i: int|
                    0 <= i < old(self)@.table.rows.len() ==> !claimable(
                        #[trigger] old(self)@.table.rows[i],
                        now,
                    ),
                Some(rec) => exists|i: int|
                    first_claimable(old(self)@.table, i, now) && rec@ == old(self)@.table.rows[i].record
                        && final(self)@.table.rows == old(self)@.table.rows.update(
                        i,
                        RowView { record: rec@, locked: true },
                    ) && final(self)@.slots == old(self)@.slots.update(
                        slot as int,
                        SlotState::Executing(rec.id),
                    ),
            },
    {
        if self.shutting_down || slot >= self.slots.len() {
            return None;
        }
        match self.slots[slot] {
            SlotState::Executing(_) => None,
            SlotState::Idle => {
                let ghost v = self@;
                let r = self.store.claim_next(now);
                match r {
                    None => None,
                    Some(rec) => {
                        self.slots.set(slot, SlotState::Executing(rec.id));
                        proof {
                            let i = choose|i: int|
                                first_claimable(v.table, i, now) && rec@ == v.table.rows[i].record
                                    && self@.table.rows == v.table.rows.update(
                                    i,
                                    RowView { record: rec@, locked: true },
                                );
                            lemma_claim_keeps(v, slot as int, i, self@);
                        }
                        Some(rec)
                    },
                }
            },
        }
    }

    /// Report the outcome of the job that slot `slot` is executing, at `now`.
    /// On success the row is deleted. On failure the row's failure count goes
    /// up by one and the retry policy, given that count and the error,
    /// decides whether it is rescheduled or marked `Failed`. Either way the
    /// lock is released and the slot becomes idle.
    pub fn complete(&mut self, slot: usize, outcome: Result<(), JobError>, now: u64) -> (r: Result<Event, RunnerError>)
        requires
            old(self).wf(),
        ensures
            final(self).wf(),
            final(self)@.shutting_down == old(self)@.shutting_down,
            final(self)@.policy == old(self)@.policy,
            final(self)@.table.next_id == old(self)@.table.next_id,
            (slot >= old(self)@.slots.len() || old(self)@.slots[slot as int] is Idle) ==> r
                == Err::<Event, RunnerError>(RunnerError::NotExecuting) && final(self)@ == old(self)@,
            (slot < old(self)@.slots.len() && old(self)@.slots[slot as int] is Executing) ==> ({
                let id = old(self)@.slots[slot as int]->Executing_0;
                &&& final(self)@.slots == old(self)@.slots.update(slot as int, SlotState::Idle)
                &&& exists|i: int|
                    #![trigger row_at(old(self)@.table, i, id)]
                    row_at(old(self)@.table, i, id) && match outcome {
                        Ok(_) => r == Ok::<Event, RunnerError>(Event::Succeeded(id))
                            && final(self)@.table.rows == old(self)@.table.rows.remove(i),
                        Err(e) => {
                            let rec = old(self)@.table.rows[i].record;
                            let d = decide_spec(
                                old(self)@.policy,
                                failures_after(rec) as nat,
                                e.is_permanent_kind(),
                            );
                            &&& r == Ok::<Event, RunnerError>(failure_event(id, d, now))
                            &&& final(self)@.table.rows == old(self)@.table.rows.update(
                                i,
                                RowView { record: failed_record(rec, e, d, now), locked: false },
                            )
                        },
                    }
            }),
    {
        if slot >= self.slots.len() {
            return Err(RunnerError::NotExecuting);
        }
        let id = match self.slots[slot] {
            SlotState::Idle => {
                return Err(RunnerError::NotExecuting);
            },
            SlotState::Executing(id) => id,
        };
        let ghost v = self@;
        proof {
            assert(v.slots[slot as int] is Executing);
            let j = choose|j: int| row_at(v.table, j, id) && v.table.rows[j].locked;
            crate::store::lemma_row_unique(v.table, j);
        }
        match outcome {
            Ok(()) => {
                let _ = self.store.mark_succeeded(id);
                self.slots.set(slot, SlotState::Idle);
                proof {
                    let i = choose|i: int| row_at(v.table, i, id) && self@.table.rows == v.table.rows.remove(i);
                    lemma_remove_keeps(v, slot as int, i, self@);
                }
                Ok(Event::Succeeded(id))
            },
            Err(e) => {
                let failures = match self.store.get(id) {
                    Some(rec) => {
                        if rec.retry_count < u32::MAX {
                            rec.retry_count + 1
                        } else {
                            rec.retry_count
                        }
                    },
                    None => 1,
                };
                let d = self.policy.decide(failures, &e);
                let ghost ge = e;
                let _ = self.store.mark_failed(id, e, d, now);
                self.slots.set(slot, SlotState::Idle);
                proof {
                    let i = choose|i: int|
                        row_at(v.table, i, id) && self@.table.rows == v.table.rows.update(
                            i,
                            RowView {
                                record: failed_record(v.table.rows[i].record, ge, d, now),
                                locked: false,
                            },
                        );
                    lemma_unlock_keeps(
                        v,
                        slot as int,
                        i,
                        failed_record(v.table.rows[i].record, ge, d, now),
                        self@,
                    );
                }
                match d {
                    Decision::RetryAfter(delay) => Ok(Event::WillRetry(id, now.saturating_add(delay))),
                    Decision::PermanentFailure => Ok(Event::FailedPermanently(id)),
                }
            },
        }
    }

    /// Drop the job that slot `slot` is executing without finishing it, as
    /// when the slot dies before its commit: the row's lock is released and
    /// the row is left exactly as it was, so another slot can claim it again.
    pub fn abandon(&mut self, slot: usize) -> (r: Result<u64, RunnerError>)
        requires
            old(self).wf(),
        ensures
            final(self).wf(),
            final(self)@.shutting_down == old(self)@.shutting_down,
            final(self)@.policy == old(self)@.policy,
            final(self)@.table.next_id == old(self)@.table.next_id,
            (slot >= old(self)@.slots.len() || old(self)@.slots[slot as int] is Idle) ==> r
                == Err::<u64, RunnerError>(RunnerError::NotExecuting) && final(self)@ == old(self)@,
            (slot < old(self)@.slots.len() && old(self)@.slots[slot as int] is Executing) ==> ({
                let id = old(self)@.slots[slot as int]->Executing_0;
                &&& r == Ok::<u64, RunnerError>(id)
                &&& final(self)@.slots == old(self)@.slots.update(slot as int, SlotState::Idle)
                &&& exists|i: int|
                    #![trigger row_at(old(self)@.table, i, id)]
                    row_at(old(self)@.table, i, id) && final(self)@.table.rows
                        == old(self)@.table.rows.update(
                        i,
                        RowView { record: old(self)@.table.rows[i].record, locked: false },
                    )
            }),
    {
        if slot >= self.slots.len() {
            return Err(RunnerError::NotExecuting);
        }
        let id = match self.slots[slot] {
            SlotState::Idle => {
                return Err(RunnerError::NotExecuting);
            },
            SlotState::Executing(id) => id,
        };
        let ghost v = self@;
        let _ = self.store.release(id);
        self.slots.set(slot, SlotState::Idle);
        proof {
            assert(v.slots[slot as int] is Executing);
            let i = choose|i: int|
                row_at(v.table, i, id) && self@.table.rows == v.table.rows.update(
                    i,
                    RowView { record: v.table.rows[i].record, locked: false },
                );
            lemma_unlock_keeps(v, slot as int, i, v.table.rows[i].record, self@);
        }
        Ok(id)
    }

    /// Stop issuing claims. Slots that are executing keep their jobs and
    /// finish them through `complete`.
    pub fn begin_shutdown(&mut self)
        requires
            old(self).wf(),
        ensures
            final(self).wf(),
            final(self)@ == (RunnerView { shutting_down: true, ..old(self)@ }),
    {
        self.shutting_down = true;
    }

    /// No slot is executing a job.
    pub fn is_drained(&self) -> (r: bool)
        ensures
            r == drained(self@.slots),
    {
        let mut s: usize = 0;
        while s < self.slots.len()
            invariant
                s <= self.slots@.len(),
                forall|k: int| 0 <= k < s ==> #[trigger] self.slots@[k] == SlotState::Idle,
            decreases self.slots@.len() - s,
        {
            match self.slots[s] {
                SlotState::Executing(_) => {
                    return false;
                },
                SlotState::Idle => {},
            }
            s = s + 1;
        }
        true
    }

    /// Shut down without waiting any longer, as when the shutdown deadline
    /// has passed: claims stop, every executing slot's claim is given back
    /// as if its transaction were torn down, and every row is left as it was
    /// and unlocked, so a surviving process can claim it again.
    pub fn force_shutdown(&mut self)
        requires
            old(self).wf(),
        ensures
            final(self).wf(),
            final(self)@.shutting_down,
            final(self)@.policy == old(self)@.policy,
            final(self)@.table.next_id == old(self)@.table.next_id,
            final(self)@.slots.len() == old(self)@.slots.len(),
            drained(final(self)@.slots),
            final(self)@.table.rows.len() == old(self)@.table.rows.len(),
            forall|i: int|
                0 <= i < final(self)@.table.rows.len() ==> (#[trigger] final(self)@.table.rows[i]).record
                    == old(self)@.table.rows[i].record && !final(self)@.table.rows[i].locked,
    {
        self.shutting_down = true;
        let mut s: usize = 0;
        while s < self.slots.len()
            invariant
                self.wf(),
                self@.shutting_down,
                self@.policy == old(self)@.policy,
                self@.table.next_id == old(self)@.table.next_id,
                self@.slots.len() == old(self)@.slots.len(),
                s <= self@.slots.len(),
                forall|k: int| 0 <= k < s ==> #[trigger] self@.slots[k] == SlotState::Idle,
                self@.table.rows.len() == old(self)@.table.rows.len(),
                forall|i: int|
                    0 <= i < self@.table.rows.len() ==> (#[trigger] self@.table.rows[i]).record
                        == old(self)@.table.rows[i].record,
            decreases self@.slots.len() - s,
        {
            let ghost v = self@;
            let _ = self.abandon(s);
            proof {
                assert forall|i: int| 0 <= i < self@.table.rows.len() implies (#[trigger] self@.table.rows[i]).record
                    == old(self)@.table.rows[i].record by {
                    assert(self@.table.rows[i].record == v.table.rows[i].record);
                }
            }
            s = s + 1;
        }
        proof {
            lemma_drained_holds_no_lock(self@);
        }
    }

    /// Shutdown has begun and every slot has finished: the runner may stop.
    pub fn shutdown_complete(&self) -> (r: bool)
        ensures
            r == (self@.shutting_down && drained(self@.slots)),
    {
        self.shutting_down && self.is_drained()
    }
}

} // verus!
