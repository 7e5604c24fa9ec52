use vstd::prelude::*;

verus! {

/// Persisted status of a row. A row being worked on is not a status: it is a
/// row whose lock is held.
#[derive(Clone, Copy, Debug, PartialEq, Eq, Structural)]
pub enum JobStatus {
    Pending,
    Failed,
}

/// Why an attempt at a job failed.
#[derive(Debug, PartialEq, Eq)]
pub enum JobError {
    /// The job's own logic reported an error.
    Perform(String),
    /// The payload could not be decoded into the job's type.
    Decode(String),
    /// The handler faulted; the fault was caught at the slot boundary.
    Panicked(String),
    /// No handler is registered for the row's job type.
    UnregisteredJobType,
}

impl JobError {
    /// Errors that retrying cannot mend.
    pub open spec fn is_permanent_kind(&self) -> bool {
        self is UnregisteredJobType
    }

    pub fn is_permanent(&self) -> (r: bool)
        ensures
            r == self.is_permanent_kind(),
    {
        match self {
            JobError::UnregisteredJobType => true,
            _ => false,
        }
    }

    pub fn duplicate(&self) -> (r: JobError)
        ensures
            r == *self,
    {
        match self {
            JobError::Perform(m) => JobError::Perform(m.clone()),
            JobError::Decode(m) => JobError::Decode(m.clone()),
            JobError::Panicked(m) => JobError::Panicked(m.clone()),
            JobError::UnregisteredJobType => JobError::UnregisteredJobType,
        }
    }
}

/// One row of the queue table.
#[derive(Debug)]
pub struct JobRecord {
    pub id: u64,
    pub job_type: String,
    pub payload: Vec<u8>,
    pub retry_count: u32,
    pub status: JobStatus,
    pub last_retry_at: Option<u64>,
    pub next_retry_at: Option<u64>,
    pub created_at: u64,
    pub error_info: Option<JobError>,
}

/// A row as a mathematical value.
pub struct JobRecordView {
    pub id: u64,
    pub job_type: Seq<char>,
    pub payload: Seq<u8>,
    pub retry_count: u32,
    pub status: JobStatus,
    pub last_retry_at: Option<u64>,
    pub next_retry_at: Option<u64>,
    pub created_at: u64,
    pub error_info: Option<JobError>,
}

impl View for JobRecord {
    type V = JobRecordView;

    open spec fn view(&self) -> JobRecordView {
        JobRecordView {
            id: self.id,
            job_type: self.job_type@,
            payload: self.payload@,
            retry_count: self.retry_count,
            status: self.status,
            last_retry_at: self.last_retry_at,
            next_retry_at: self.next_retry_at,
            created_at: self.created_at,
            error_info: self.error_info,
        }
    }
}

/// A row may be picked up at `now`: it is pending and its retry time, if any,
/// has come.
pub open spec fn eligible(r: JobRecordView, now: u64) -> bool {
    &&& r.status == JobStatus::Pending
    &&& match r.next_retry_at {
        None => true,
        Some(t) => t <= now,
    }
}

impl JobRecord {
    /// A fresh pending row with no failures recorded.
    pub fn new(id: u64, job_type: String, payload: Vec<u8>, created_at: u64) -> (r: JobRecord)
        ensures
            r@ == (JobRecordView {
                id,
                job_type: job_type@,
                payload: payload@,
                retry_count: 0,
                status: JobStatus::Pending,
                last_retry_at: None,
                next_retry_at: None,
                created_at,
                error_info: None,
            }),
    {
        JobRecord {
            id,
            job_type,
            payload,
            retry_count: 0,
            status: JobStatus::Pending,
            last_retry_at: None,
            next_retry_at: None,
            created_at,
            error_info: None,
        }
    }

    pub fn is_eligible(&self, now: u64) -> (r: bool)
        ensures
            r == eligible(self@, now),
    {
        match self.status {
            JobStatus::Failed => false,
            JobStatus::Pending => match self.next_retry_at {
                None => true,
                Some(t) => t <= now,
            },
        }
    }

    pub fn duplicate(&self) -> (r: JobRecord)
        ensures
            r@ == self@,
    {
        let error_info = match &self.error_info {
            None => None,
            Some(e) => Some(e.duplicate()),
        };
        let payload = self.payload.clone();
        proof {
            assert(payload@ =~= self.payload@);
        }
        JobRecord {
            id: self.id,
            job_type: self.job_type.clone(),
            payload,
            retry_count: self.retry_count,
            status: self.status,
            last_retry_at: self.last_retry_at,
            next_retry_at: self.next_retry_at,
            created_at: self.created_at,
            error_info,
        }
    }
}

} // verus!
