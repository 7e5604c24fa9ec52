use vstd::prelude::*;

use crate::record::{eligible, JobError, JobRecord, JobRecordView, JobStatus};
use crate::retry::Decision;

verus! {

/// Why an enqueue did not take place.
#[derive(Clone, Copy, Debug, PartialEq, Eq, Structural)]
pub enum EnqueueError {
    /// The payload could not be encoded; nothing was written.
    Serialization,
    /// The write itself failed.
    Storage,
}

/// Why a bookkeeping call on a claimed row was refused.
#[derive(Clone, Copy, Debug, PartialEq, Eq, Structural)]
pub enum StoreError {
    /// No row has that id, or its lock is not held.
    NotClaimed,
}

/// A row of the table and whether its lock is currently held.
struct StoredRow {
    record: JobRecord,
    locked: bool,
}

pub struct RowView {
    pub record: JobRecordView,
    pub locked: bool,
}

pub struct TableView {
    pub rows: Seq<RowView>,
    pub next_id: nat,
}

/// A row can be claimed at `now`: eligible and not locked by anyone.
pub open spec fn claimable(row: RowView, now: u64) -> bool {
    !row.locked && eligible(row.record, now)
}

/// Rows are kept in insertion order, which is the order of their ids, and
/// every id lies below the next one to be handed out.
pub open spec fn table_wf(t: TableView) -> bool {
    &&& forall|i: int, j: int|
        0 <= i < j < t.rows.len() ==> (#[trigger] t.rows[i]).record.id < (#[trigger] t.rows[j]).record.id
    &&& forall|i: int| 0 <= i < t.rows.len() ==> (#[trigger] t.rows[i]).record.id < t.next_id
    &&& 1 <= t.next_id <= u64::MAX
}

/// Index `i` holds the row with id `id`.
pub open spec fn row_at(t: TableView, i: int, id: u64) -> bool {
    0 <= i < t.rows.len() && t.rows[i].record.id == id
}

pub open spec fn has_row(t: TableView, id: u64) -> bool {
    exists|i: int| row_at(t, i, id)
}

/// Index `i` is the first claimable row: the one `claim_next` picks.
pub open spec fn first_claimable(t: TableView, i: int, now: u64) -> bool {
    &&& 0 <= i < t.rows.len()
    &&& claimable(t.rows[i], now)
    &&& forall|j: int| 0 <= j < i ==> !claimable(#[trigger] t.rows[j], now)
}

/// `a + b`, held at `u64::MAX`.
pub open spec fn saturating_sum(a: u64, b: u64) -> u64 {
    if a + b > u64::MAX {
        u64::MAX
    } else {
        (a + b) as u64
    }
}

/// The unlocked pending row that an enqueue at `now` writes.
pub open spec fn new_row(id: u64, job_type: Seq<char>, payload: Seq<u8>, now: u64) -> RowView {
    RowView {
        record: JobRecordView {
            id,
            job_type,
            payload,
            retry_count: 0,
            status: JobStatus::Pending,
            last_retry_at: None,
            next_retry_at: None,
            created_at: now,
            error_info: None,
        },
        locked: false,
    }
}

/// A row after a failed attempt at `now`, with the policy's decision applied.
pub open spec fn failed_record(
    r: JobRecordView,
    error: JobError,
    decision: Decision,
    now: u64,
) -> JobRecordView {
    JobRecordView {
        retry_count: if r.retry_count < u32::MAX {
            (r.retry_count + 1) as u32
        } else {
            r.retry_count
        },
        status: match decision {
            Decision::RetryAfter(_) => JobStatus::Pending,
            Decision::PermanentFailure => JobStatus::Failed,
        },
        last_retry_at: Some(now),
        next_retry_at: match decision {
            Decision::RetryAfter(d) => Some(saturating_sum(now, d)),
            Decision::PermanentFailure => None,
        },
        error_info: Some(error),
        ..r
    }
}

/// In a well-formed table an id names at most one row.
pub proof fn lemma_row_unique(t: TableView, i: int)
    requires
        table_wf(t),
        0 <= i < t.rows.len(),
    ensures
        forall|j: int| #[trigger] row_at(t, j, t.rows[i].record.id) ==> j == i,
{
    assert forall|j: int| #[trigger] row_at(t, j, t.rows[i].record.id) implies j == i by {
        if j < i {
            assert(t.rows[j].record.id < t.rows[i].record.id);
        } else if i < j {
            assert(t.rows[i].record.id < t.rows[j].record.id);
        }
    }
}

/// The row that `claim_next` picks has the lowest id among the claimable
/// rows, and lies before each of them in insertion order.
pub proof fn lemma_claim_is_fifo(t: TableView, i: int, now: u64)
    requires
        table_wf(t),
        first_claimable(t, i, now),
    ensures
        forall|k: int|
            0 <= k < t.rows.len() && claimable(#[trigger] t.rows[k], now) ==> i <= k
                && t.rows[i].record.id <= t.rows[k].record.id,
{
    assert forall|k: int| 0 <= k < t.rows.len() && claimable(#[trigger] t.rows[k], now) implies i <= k
        && t.rows[i].record.id <= t.rows[k].record.id by {
        if k < i {
            assert(!claimable(t.rows[k], now));
        } else if i < k {
            assert(t.rows[i].record.id < t.rows[k].record.id);
        }
    }
}

/// A claimed row whose lock is given back without a commit is exactly the
/// row it was, and is claimable again.
pub proof fn lemma_release_restores(t: TableView, i: int, now: u64)
    requires
        table_wf(t),
        first_claimable(t, i, now),
    ensures
        ({
            let rec = t.rows[i].record;
            let claimed = t.rows.update(i, RowView { record: rec, locked: true });
            let released = claimed.update(i, RowView { record: claimed[i].record, locked: false });
            &&& released == t.rows
            &&& claimable(released[i], now)
        }),
{
    let rec = t.rows[i].record;
    let claimed = t.rows.update(i, RowView { record: rec, locked: true });
    let released = claimed.update(i, RowView { record: claimed[i].record, locked: false });
    assert(released[i] == t.rows[i]);
    assert(released =~= t.rows);
}

/// The durable table of pending and failed jobs, with a lock per row.
pub struct QueueTable {
    rows: Vec<StoredRow>,
    next_id: u64,
}

impl View for QueueTable {
    type V = TableView;

    closed spec fn view(&self) -> TableView {
        TableView {
            rows: self.rows@.map_values(|r: StoredRow| RowView { record: r.record@, locked: r.locked }),
            next_id: self.next_id as nat,
        }
    }
}

impl QueueTable {
    pub open spec fn wf(&self) -> bool {
        table_wf(self@)
    }

    /// An empty table; the first id handed out is 1.
    pub fn new() -> (r: QueueTable)
        ensures
            r.wf(),
            r@.rows.len() == 0,
            r@.next_id == 1,
    {
        let r = QueueTable { rows: Vec::new(), next_id: 1 };
        proof {
            assert(r@.rows =~= Seq::<RowView>::empty());
        }
        r
    }

    pub fn len(&self) -> (r: usize)
        ensures
            r == self@.rows.len(),
    {
        self.rows.len()
    }

    /// The position of the row with id `id`.
    pub fn position(&self, id: u64) -> (r: Option<usize>)
        ensures
            match r {
                Some(i) => row_at(self@, i as int, id),
                None => !has_row(self@, id),
            },
    {
        let mut i: usize = 0;
        while i < self.rows.len()
            invariant
                i <= self.rows@.len(),
                forall|j: int| 0 <= j < i ==> !row_at(self@, j, id),
            decreases self.rows@.len() - i,
        {
            if self.rows[i].record.id == id {
                return Some(i);
            }
            i = i + 1;
        }
        None
    }

    /// The row with id `id`, if the table holds it.
    pub fn get(&self, id: u64) -> (r: Option<&JobRecord>)
        ensures
            match r {
                Some(rec) => exists|i: int| row_at(self@, i, id) && rec@ == self@.rows[i].record,
                None => !has_row(self@, id),
            },
    {
        match self.position(id) {
            Some(i) => Some(&self.rows[i].record),
            None => None,
        }
    }

    /// Whether the row with id `id` exists and could be claimed at `now`.
    pub fn is_claimable(&self, id: u64, now: u64) -> (r: bool)
        requires
            self.wf(),
        ensures
            r == exists|i: int| row_at(self@, i, id) && claimable(self@.rows[i], now),
    {
        match self.position(id) {
            Some(i) => {
                proof {
                    lemma_row_unique(self@, i as int);
                }
                !self.rows[i].locked && self.rows[i].record.is_eligible(now)
            },
            None => false,
        }
    }

    /// Whether the lock of the row with id `id` is held.
    pub fn is_locked(&self, id: u64) -> (r: bool)
        requires
            self.wf(),
        ensures
            r == exists|i: int| row_at(self@, i, id) && self@.rows[i].locked,
    {
        match self.position(id) {
            Some(i) => {
                proof {
                    lemma_row_unique(self@, i as int);
                }
                self.rows[i].locked
            },
            None => false,
        }
    }

    /// Insert a pending row with no failures; its id is the next one in
    /// sequence. Fails with `Storage` when the id space is used up.
    pub fn enqueue(&mut self, job_type: String, payload: Vec<u8>, now: u64) -> (r: Result<u64, EnqueueError>)
        requires
            old(self).wf(),
        ensures
            final(self).wf(),
            old(self)@.next_id == u64::MAX ==> r == Err::<u64, EnqueueError>(EnqueueError::Storage)
                && final(self)@ == old(self)@,
            old(self)@.next_id < u64::MAX ==> r == Ok::<u64, EnqueueError>(old(self)@.next_id as u64)
                && final(self)@.next_id == old(self)@.next_id + 1
                && final(self)@.rows == old(self)@.rows.push(
                    new_row(old(self)@.next_id as u64, job_type@, payload@, now),
                ),
    {
        if self.next_id == u64::MAX {
            return Err(EnqueueError::Storage);
        }
        let id = self.next_id;
        let record = JobRecord::new(id, job_type, payload, now);
        self.rows.push(StoredRow { record, locked: false });
        self.next_id = id + 1;
        proof {
            let rv = RowView { record: record@, locked: false };
            assert(self@.rows =~= old(self)@.rows.push(rv));
        }
        Ok(id)
    }

    /// Lock and return the first claimable row, which is the one with the
    /// lowest id among the claimable rows. Rows locked by someone else are
    /// skipped, never waited on. `None` when no row is claimable.
    pub fn claim_next(&mut self, now: u64) -> (r: Option<JobRecord>)
        requires
            old(self).wf(),
        ensures
            final(self).wf(),
            final(self)@.next_id == old(self)@.next_id,
            match r {
                None => final(self)@ == old(self)@
                    && forall|i: int| 0 <= i < old(self)@.rows.len()
                        ==> !claimable(#[trigger] old(self)@.rows[i], now),
                Some(rec) => exists|i: int|
                    first_claimable(old(self)@, i, now)
                    && rec@ == old(self)@.rows[i].record
                    && final(self)@.rows == old(self)@.rows.update(
                        i,
                        RowView { record: rec@, locked: true },
                    ),
            },
    {
        let mut i: usize = 0;
        while i < self.rows.len()
            invariant
                i <= self.rows@.len(),
                self@ == old(self)@,
                self.wf(),
                forall|j: int| 0 <= j < i ==> !claimable(#[trigger] self@.rows[j], now),
            decreases self.rows@.len() - i,
        {
            if !self.rows[i].locked && self.rows[i].record.is_eligible(now) {
                let record = self.rows[i].record.duplicate();
                let out = self.rows[i].record.duplicate();
                let ghost old_view = self@;
                self.rows.set(i, StoredRow { record, locked: true });
                proof {
                    let rv = RowView { record: out@, locked: true };
                    assert(self@.rows =~= old_view.rows.update(i as int, rv));
                    assert(first_claimable(old_view, i as int, now));
                }
                return Some(out);
            }
            i = i + 1;
        }
        None
    }

    /// Give up the lock on a claimed row without changing it, as a rollback
    /// does: the row is claimable again.
    pub fn release(&mut self, id: u64) -> (r: Result<(), StoreError>)
        requires
            old(self).wf(),
        ensures
            final(self).wf(),
            final(self)@.next_id == old(self)@.next_id,
            r is Ok <==> exists|i: int| row_at(old(self)@, i, id) && old(self)@.rows[i].locked,
            r is Err ==> final(self)@ == old(self)@,
            r is Ok ==> exists|i: int|
                row_at(old(self)@, i, id) && final(self)@.rows == old(self)@.rows.update(
                    i,
                    RowView { record: old(self)@.rows[i].record, locked: false },
                ),
    {
        match self.position(id) {
            None => Err(StoreError::NotClaimed),
            Some(i) => {
                if !self.rows[i].locked {
                    return Err(StoreError::NotClaimed);
                }
                let record = self.rows[i].record.duplicate();
                let ghost old_view = self@;
                self.rows.set(i, StoredRow { record, locked: false });
                proof {
                    let rv = RowView { record: old_view.rows[i as int].record, locked: false };
                    assert(self@.rows =~= old_view.rows.update(i as int, rv));
                }
                Ok(())
            }
        }
    }

    /// Retire a claimed row whose job succeeded: it is deleted.
    pub fn mark_succeeded(&mut self, id: u64) -> (r: Result<(), StoreError>)
        requires
            old(self).wf(),
        ensures
            final(self).wf(),
            final(self)@.next_id == old(self)@.next_id,
            r is Ok <==> exists|i: int| row_at(old(self)@, i, id) && old(self)@.rows[i].locked,
            r is Err ==> final(self)@ == old(self)@,
            r is Ok ==> exists|i: int|
                row_at(old(self)@, i, id) && final(self)@.rows == old(self)@.rows.remove(i),
    {
        match self.position(id) {
            None => Err(StoreError::NotClaimed),
            Some(i) => {
                if !self.rows[i].locked {
                    return Err(StoreError::NotClaimed);
                }
                let ghost old_view = self@;
                let _ = self.rows.remove(i);
                proof {
                    assert(self@.rows =~= old_view.rows.remove(i as int));
                }
                Ok(())
            }
        }
    }

    /// Record a failed attempt on a claimed row at `now` and release its lock:
    /// the retry count goes up by one, the error is kept, and the row is
    /// rescheduled or marked `Failed` as `decision` says.
    pub fn mark_failed(&mut self, id: u64, error: JobError, decision: Decision, now: u64) -> (r: Result<(), StoreError>)
        requires
            old(self).wf(),
        ensures
            final(self).wf(),
            final(self)@.next_id == old(self)@.next_id,
            r is Ok <==> exists|i: int| row_at(old(self)@, i, id) && old(self)@.rows[i].locked,
            r is Err ==> final(self)@ == old(self)@,
            r is Ok ==> exists|i: int|
                row_at(old(self)@, i, id) && final(self)@.rows == old(self)@.rows.update(
                    i,
                    RowView {
                        record: failed_record(old(self)@.rows[i].record, error, decision, now),
                        locked: false,
                    },
                ),
    {
        match self.position(id) {
            None => Err(StoreError::NotClaimed),
            Some(i) => {
                if !self.rows[i].locked {
                    return Err(StoreError::NotClaimed);
                }
                let mut record = self.rows[i].record.duplicate();
                if record.retry_count < u32::MAX {
                    record.retry_count = record.retry_count + 1;
                }
                match decision {
                    Decision::RetryAfter(d) => {
                        record.status = JobStatus::Pending;
                        record.next_retry_at = Some(now.saturating_add(d));
                    },
                    Decision::PermanentFailure => {
                        record.status = JobStatus::Failed;
                        record.next_retry_at = None;
                    },
                }
                record.last_retry_at = Some(now);
                record.error_info = Some(error);
                let ghost old_view = self@;
                let ghost new_record = record@;
                self.rows.set(i, StoredRow { record, locked: false });
                proof {
                    let rv = RowView { record: new_record, locked: false };
                    assert(new_record == failed_record(old_view.rows[i as int].record, error, decision, now));
                    assert(self@.rows =~= old_view.rows.update(i as int, rv));
                }
                Ok(())
            }
        }
    }
}

} // verus!
