//! A single unit of work: identity, dependencies, action, status and its data.
use vstd::prelude::*;
use vstd::string::StringExecFns;
use std::time::{Duration, Instant};
use crate::codec::strings_view;
use crate::error::{error_message, Error};
use crate::job_type::{executes_to, JobType, Request, Response};

verus! {

#[verifier::external_type_specification]
#[verifier::external_body]
pub struct ExInstant(std::time::Instant);

/// Relies on `Instant::now`: a reading of the monotonic clock; nothing is
/// promised of its value.
pub assume_specification[ std::time::Instant::now ]() -> std::time::Instant;

/// Relies on `Instant::duration_since`: the time between two readings, zero
/// when `earlier` is later; it does not panic.
pub assume_specification[ std::time::Instant::duration_since ](
    i: &std::time::Instant,
    earlier: std::time::Instant,
) -> std::time::Duration;

/// Relies on `Instant`'s `Clone`: it is `Copy`, so a clone is the same reading.
pub assume_specification[ <std::time::Instant as Clone>::clone ](i: &std::time::Instant) -> (r:
    std::time::Instant)
    ensures
        r == *i,
;

/// Relies on `Duration`'s `Clone`: it is `Copy`, so a clone is the same span.
pub assume_specification[ <std::time::Duration as Clone>::clone ](d: &std::time::Duration) -> (r:
    std::time::Duration)
    ensures
        r == *d,
;

/// The identity of a job: a 128-bit value, drawn at random when the job is made.
#[derive(Clone, Copy, Debug, PartialEq, Eq, Structural, Hash, PartialOrd, Ord, Default)]
pub struct JobId {
    pub id: u128,
}

impl JobId {
    pub fn from_u128(id: u128) -> (r: JobId)
        ensures
            r.id == id,
    {
        JobId { id }
    }

    pub fn as_u128(&self) -> (r: u128)
        ensures
            r == self.id,
    {
        self.id
    }
}

/// Relies on `uuid::Uuid::new_v4`: a random version-4 identifier; nothing is
/// promised of its value.
#[verifier::external_body]
fn fresh_job_id() -> (r: JobId) {
    JobId { id: uuid::Uuid::new_v4().as_u128() }
}

/// Where a job is in its lifecycle: `Waiting`, then `InProgress`, then
/// `Succeeded` or `Failed`.
#[derive(Debug, Clone, PartialEq, Eq, Default)]
pub enum JobStatus {
    #[default]
    Waiting,
    InProgress { started_at: Instant },
    Failed { msg: String, duration: Duration },
    Succeeded { msg: String, duration: Duration },
}

/// The message of a terminal status.
pub open spec fn status_message(s: JobStatus) -> Seq<char> {
    match s {
        JobStatus::Failed { msg, .. } => msg@,
        JobStatus::Succeeded { msg, .. } => msg@,
        _ => seq![],
    }
}

pub open spec fn is_terminal(s: JobStatus) -> bool {
    s is Failed || s is Succeeded
}

impl JobStatus {
    pub fn is_waiting(&self) -> (r: bool)
        ensures
            r == self is Waiting,
    {
        matches!(self, JobStatus::Waiting)
    }

    pub fn is_running(&self) -> (r: bool)
        ensures
            r == self is InProgress,
    {
        matches!(self, JobStatus::InProgress { .. })
    }

    pub fn is_failed(&self) -> (r: bool)
        ensures
            r == self is Failed,
    {
        matches!(self, JobStatus::Failed { .. })
    }

    pub fn is_succeeded(&self) -> (r: bool)
        ensures
            r == self is Succeeded,
    {
        matches!(self, JobStatus::Succeeded { .. })
    }

    /// A copy of this status.
    pub fn duplicate(&self) -> (r: JobStatus)
        ensures
            r == *self,
    {
        match self {
            JobStatus::Waiting => JobStatus::Waiting,
            JobStatus::InProgress { started_at } => JobStatus::InProgress { started_at: *started_at },
            JobStatus::Failed { msg, duration } => JobStatus::Failed {
                msg: msg.clone(),
                duration: *duration,
            },
            JobStatus::Succeeded { msg, duration } => JobStatus::Succeeded {
                msg: msg.clone(),
                duration: *duration,
            },
        }
    }
}

/// A job: its identity and dependencies, its action, and what it consumed and produced.
#[derive(Debug, Clone, PartialEq, Eq, Default)]
pub struct Job {
    /// The job's identity, which other jobs name as a dependency.
    pub job_id: JobId,
    /// The jobs whose outputs this job takes as input, in order.
    pub dependencies: Vec<JobId>,
    /// A label for people; need not be unique.
    pub name: String,
    /// The action.
    pub job_type: JobType,
    /// The status.
    pub status: JobStatus,
    /// Arguments given by the job's author, handed to the action as they are.
    pub fixed_input: Vec<String>,
    /// The outputs of the dependencies, set just before the job runs.
    pub input: Vec<String>,
    /// What the job produced, set when it ends.
    pub output: String,
}

/// The ids of succeeded jobs in `jobs` include `id`.
pub open spec fn succeeded_in(jobs: Seq<Job>, id: JobId) -> bool {
    exists|k: int| 0 <= k < jobs.len() && #[trigger] jobs[k].job_id == id && jobs[k].status is Succeeded
}

/// Every id in `deps` is that of a succeeded job in `jobs`.
pub open spec fn deps_succeeded(deps: Seq<JobId>, jobs: Seq<Job>) -> bool {
    forall|t: int| 0 <= t < deps.len() ==> succeeded_in(jobs, #[trigger] deps[t])
}

/// How a job ends for the action's result `res`.
pub open spec fn ends_with(job: Job, res: Result<String, Error>) -> bool {
    match res {
        Ok(s) => job.status is Succeeded && status_message(job.status) == s@ && job.output@ == s@,
        Err(e) => job.status is Failed && status_message(job.status) == error_message(e)
            && job.output@ == error_message(e),
    }
}

impl Job {
    /// No self-dependency, and a terminal job's output is its status message.
    pub open spec fn wf(&self) -> bool {
        &&& !self.dependencies@.contains(self.job_id)
        &&& is_terminal(self.status) ==> self.output@ == status_message(self.status)
    }

    /// The job with everything but the status, the input and the output unchanged.
    pub open spec fn same_setup(&self, other: Job) -> bool {
        &&& self.job_id == other.job_id
        &&& self.dependencies == other.dependencies
        &&& self.name == other.name
        &&& self.job_type == other.job_type
        &&& self.fixed_input == other.fixed_input
    }

    /// A waiting job with a fresh identity and no dependencies.
    pub fn new(name: &str, job_type: JobType) -> (r: Job)
        ensures
            r.wf(),
            r.name@ == name@,
            r.job_type == job_type,
            r.dependencies@.len() == 0,
            r.status is Waiting,
            r.fixed_input@.len() == 0,
            r.input@.len() == 0,
            r.output@.len() == 0,
    {
        Job {
            job_id: fresh_job_id(),
            dependencies: Vec::new(),
            name: String::from_str(name),
            job_type,
            status: JobStatus::Waiting,
            fixed_input: Vec::new(),
            input: Vec::new(),
            output: String::new(),
        }
    }

    /// The same job with `input` as its fixed input.
    pub fn with_input(self, input: Vec<String>) -> (r: Job)
        ensures
            r == (Job { fixed_input: input, ..self }),
    {
        let mut job = self;
        job.fixed_input = input;
        job
    }

    /// Replaces the dependencies; a job cannot depend on itself.
    pub fn set_dependencies(&mut self, dependencies: Vec<JobId>)
        requires
            !dependencies@.contains(old(self).job_id),
        ensures
            *final(self) == (Job { dependencies, ..*old(self) }),
    {
        self.dependencies = dependencies;
    }

    /// Appends a dependency; a job cannot depend on itself.
    pub fn add_dependency(&mut self, dependency: JobId)
        requires
            dependency != old(self).job_id,
        ensures
            final(self).dependencies@ == old(self).dependencies@.push(dependency),
            *final(self) == (Job { dependencies: final(self).dependencies, ..*old(self) }),
    {
        self.dependencies.push(dependency);
    }

    pub(crate) fn set_output(&mut self, output: String)
        ensures
            *final(self) == (Job { output, ..*old(self) }),
    {
        self.output = output;
    }

    pub(crate) fn set_status(&mut self, status: JobStatus)
        ensures
            *final(self) == (Job { status, ..*old(self) }),
    {
        self.status = status;
    }

    pub(crate) fn set_input(&mut self, input: Vec<String>)
        ensures
            *final(self) == (Job { input, ..*old(self) }),
    {
        self.input = input;
    }

    /// Whether every dependency is a succeeded job of `jobs`.
    pub fn can_execute(&self, jobs: &[Job]) -> (r: bool)
        ensures
            r == deps_succeeded(self.dependencies@, jobs@),
    {
        let mut t: usize = 0;
        while t < self.dependencies.len()
            invariant
                t <= self.dependencies@.len(),
                deps_succeeded(self.dependencies@.take(t as int), jobs@),
            decreases self.dependencies@.len() - t,
        {
            let dep = self.dependencies[t];
            let mut k: usize = 0;
            let mut found = false;
            while k < jobs.len()
                invariant
                    k <= jobs@.len(),
                    found ==> succeeded_in(jobs@, dep),
                    !found ==> forall|m: int|
                        0 <= m < k ==> !(#[trigger] jobs@[m].job_id == dep
                            && jobs@[m].status is Succeeded),
                decreases jobs@.len() - k,
            {
                if jobs[k].job_id == dep && jobs[k].status.is_succeeded() {
                    found = true;
                }
                k = k + 1;
            }
            if !found {
                assert(self.dependencies@[t as int] == dep);
                return false;
            }
            assert forall|u: int| 0 <= u < t + 1 implies succeeded_in(
                jobs@,
                #[trigger] self.dependencies@.take(t + 1)[u],
            ) by {
                if u < t {
                    assert(self.dependencies@.take(t as int)[u] == self.dependencies@.take(
                        t + 1,
                    )[u]);
                }
            }
            t = t + 1;
        }
        assert(self.dependencies@.take(t as int) =~= self.dependencies@);
        true
    }

    /// Runs the job: it goes to `InProgress`, its action runs on its input with
    /// `host` doing the outside work, and it ends `Succeeded` or `Failed` with
    /// the action's text as its message and output.
    pub fn execute<F: Fn(Request) -> Result<Response, Error>>(&mut self, host: &F) -> (r: Result<
        JobStatus,
        Error,
    >)
        requires
            old(self).status is Waiting,
            forall|q: Request| host.requires((q,)),
        ensures
            final(self).same_setup(*old(self)),
            final(self).input == old(self).input,
            exists|res: Result<String, Error>|
                executes_to(old(self).job_type, strings_view(old(self).input@), *host, res)
                    && ends_with(*final(self), res),
            old(self).wf() ==> final(self).wf(),
            r == Ok::<JobStatus, Error>(final(self).status),
    {
        let started_at = Instant::now();
        self.set_status(JobStatus::InProgress { started_at });
        let res = self.job_type.execute(self.fixed_input.as_slice(), self.input.as_slice(), host);
        let duration = Instant::now().duration_since(started_at);
        let ghost gres = res;
        let (status, output) = match res {
            Ok(out) => (JobStatus::Succeeded { msg: out.clone(), duration }, out),
            Err(e) => {
                let m = e.message();
                (JobStatus::Failed { msg: m.clone(), duration }, m)
            },
        };
        let reported = status.duplicate();
        self.set_status(status);
        self.set_output(output);
        assert(ends_with(*self, gres));
        Ok(reported)
    }

    pub fn get_id(&self) -> (r: JobId)
        ensures
            r == self.job_id,
    {
        self.job_id
    }

    pub fn get_status(&self) -> (r: JobStatus)
        ensures
            r == self.status,
    {
        self.status.duplicate()
    }
}

} // verus!
