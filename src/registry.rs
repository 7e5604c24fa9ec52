use vstd::prelude::*;

use crate::record::JobError;

verus! {

/// Why a registration was refused.
#[derive(Clone, Copy, Debug, PartialEq, Eq, Structural)]
pub enum RegistryError {
    /// A handler for that job type is already registered.
    AlreadyRegistered,
}

/// The table from job type to handler. A handler is named by its position:
/// the caller keeps the handlers themselves in the same order.
pub struct Registry {
    job_types: Vec<String>,
}

/// No job type appears twice.
pub open spec fn distinct_types(s: Seq<Seq<char>>) -> bool {
    forall|i: int, j: int| 0 <= i < j < s.len() ==> (#[trigger] s[i]) != (#[trigger] s[j])
}

/// The position of `job_type` among the registered types, if any.
pub open spec fn lookup_spec(s: Seq<Seq<char>>, job_type: Seq<char>) -> Option<int> {
    if exists|i: int| 0 <= i < s.len() && s[i] == job_type {
        Some(choose|i: int| 0 <= i < s.len() && s[i] == job_type)
    } else {
        None
    }
}

impl View for Registry {
    type V = Seq<Seq<char>>;

    closed spec fn view(&self) -> Seq<Seq<char>> {
        self.job_types@.map_values(|t: String| t@)
    }
}

impl Registry {
    pub open spec fn wf(&self) -> bool {
        distinct_types(self@)
    }

    pub fn new() -> (r: Registry)
        ensures
            r.wf(),
            r@ == Seq::<Seq<char>>::empty(),
    {
        let r = Registry { job_types: Vec::new() };
        proof {
            assert(r@ =~= Seq::<Seq<char>>::empty());
        }
        r
    }

    pub fn len(&self) -> (r: usize)
        ensures
            r == self@.len(),
    {
        self.job_types.len()
    }

    /// The handler position for `job_type`, or `None` when nothing is
    /// registered under it.
    pub fn lookup(&self, job_type: &String) -> (r: Option<usize>)
        requires
            self.wf(),
        ensures
            match r {
                Some(i) => i < self@.len() && self@[i as int] == job_type@,
                None => forall|i: int| 0 <= i < self@.len() ==> self@[i] != job_type@,
            },
            r is Some <==> lookup_spec(self@, job_type@) is Some,
            r is Some ==> r.unwrap() as int == lookup_spec(self@, job_type@).unwrap(),
    {
        let mut i: usize = 0;
        while i < self.job_types.len()
            invariant
                i <= self@.len(),
                self.wf(),
                self@.len() == self.job_types@.len(),
                forall|j: int| 0 <= j < i ==> self@[j] != job_type@,
            decreases self@.len() - i,
        {
            if self.job_types[i] == *job_type {
                proof {
                    assert(self@[i as int] == job_type@);
                    let k = choose|k: int| 0 <= k < self@.len() && self@[k] == job_type@;
                    if k != i as int {
                        assert(distinct_types(self@));
                        if k < i {
                            assert(self@[k] != self@[i as int]);
                        } else {
                            assert(self@[i as int] != self@[k]);
                        }
                    }
                }
                return Some(i);
            }
            i = i + 1;
        }
        None
    }

    /// Register a handler for `job_type` at the next position. A type may be
    /// registered once.
    pub fn register(&mut self, job_type: String) -> (r: Result<usize, RegistryError>)
        requires
            old(self).wf(),
        ensures
            final(self).wf(),
            (exists|i: int| 0 <= i < old(self)@.len() && old(self)@[i] == job_type@) ==> r
                == Err::<usize, RegistryError>(RegistryError::AlreadyRegistered) && final(self)@
                == old(self)@,
            (forall|i: int| 0 <= i < old(self)@.len() ==> old(self)@[i] != job_type@) ==> r
                == Ok::<usize, RegistryError>(old(self)@.len() as usize) && final(self)@
                == old(self)@.push(job_type@),
    {
        match self.lookup(&job_type) {
            Some(_) => Err(RegistryError::AlreadyRegistered),
            None => {
                let n = self.job_types.len();
                let ghost t = job_type@;
                self.job_types.push(job_type);
                proof {
                    assert(self@ =~= old(self)@.push(t));
                }
                Ok(n)
            },
        }
    }

    /// The handler position for `job_type`; a type with no handler is the
    /// permanent error `UnregisteredJobType`.
    pub fn handler_for(&self, job_type: &String) -> (r: Result<usize, JobError>)
        requires
            self.wf(),
        ensures
            match r {
                Ok(i) => i < self@.len() && self@[i as int] == job_type@,
                Err(e) => e == JobError::UnregisteredJobType
                    && forall|i: int| 0 <= i < self@.len() ==> self@[i] != job_type@,
            },
    {
        match self.lookup(job_type) {
            Some(i) => Ok(i),
            None => Err(JobError::UnregisteredJobType),
        }
    }
}

} // verus!
