//! The scheduler: runs ready jobs until none is ready and none is running.
use vstd::prelude::*;
use crate::codec::strings_view;
use crate::error::Error;
use crate::job::{deps_succeeded, ends_with, is_terminal, status_message, succeeded_in, Job, JobId, JobStatus};
use crate::job_type::{executes_to, Request, Response};

verus! {

/// The jobs of a pipeline, in the order they were added.
#[derive(Debug, Clone, Default)]
pub struct Pipeline {
    pub(crate) jobs: Vec<Job>,
}

impl View for Pipeline {
    type V = Seq<Job>;

    closed spec fn view(&self) -> Seq<Job> {
        self.jobs@
    }
}

/// No two jobs share an identity.
pub open spec fn unique_ids(jobs: Seq<Job>) -> bool {
    forall|i: int, j: int|
        0 <= i < jobs.len() && 0 <= j < jobs.len() && i != j ==> #[trigger] jobs[i].job_id
            != #[trigger] jobs[j].job_id
}

/// Identities are unique and each job is well formed.
pub open spec fn jobs_wf(jobs: Seq<Job>) -> bool {
    &&& unique_ids(jobs)
    &&& forall|i: int| 0 <= i < jobs.len() ==> #[trigger] jobs[i].wf()
}

/// Job `i` is waiting and all its dependencies have succeeded.
pub open spec fn job_ready(jobs: Seq<Job>, i: int) -> bool {
    jobs[i].status is Waiting && deps_succeeded(jobs[i].dependencies@, jobs)
}

/// No job is running.
pub open spec fn none_running(jobs: Seq<Job>) -> bool {
    forall|i: int| 0 <= i < jobs.len() ==> !(#[trigger] jobs[i].status is InProgress)
}

/// Some succeeded job of `jobs` has identity `id` and message `m`.
pub open spec fn message_of(jobs: Seq<Job>, id: JobId, m: Seq<char>) -> bool {
    exists|k: int|
        0 <= k < jobs.len() && #[trigger] jobs[k].job_id == id && jobs[k].status is Succeeded
            && status_message(jobs[k].status) == m
}

/// `input` holds, in order, the messages of the succeeded jobs named by `deps`.
pub open spec fn dep_messages(jobs: Seq<Job>, deps: Seq<JobId>, input: Seq<Seq<char>>) -> bool {
    &&& input.len() == deps.len()
    &&& forall|t: int| 0 <= t < deps.len() ==> #[trigger] message_of(jobs, deps[t], input[t])
}

/// The number of waiting jobs.
pub open spec fn count_waiting(jobs: Seq<Job>) -> nat
    decreases jobs.len(),
{
    if jobs.len() == 0 {
        0
    } else {
        count_waiting(jobs.drop_last()) + if jobs.last().status is Waiting {
            1nat
        } else {
            0nat
        }
    }
}

/// From `before` to `after` only waiting jobs ran; each one that ran had all its
/// dependencies succeeded, took their messages as input, and ended.
pub open spec fn ran_correctly(before: Seq<Job>, after: Seq<Job>) -> bool {
    &&& after.len() == before.len()
    &&& forall|i: int| 0 <= i < before.len() ==> #[trigger] after[i].same_setup(before[i])
    &&& forall|i: int|
        0 <= i < before.len() && !(before[i].status is Waiting) ==> #[trigger] after[i]
            == before[i]
    &&& forall|i: int|
        0 <= i < before.len() && before[i].status is Waiting && !(#[trigger] after[i].status is Waiting)
            ==> {
            &&& is_terminal(after[i].status)
            &&& deps_succeeded(after[i].dependencies@, after)
            &&& dep_messages(after, after[i].dependencies@, strings_view(after[i].input@))
        }
}

/// Each job that ran from `before` to `after` ended as its action, run through
/// `host`, can end.
pub open spec fn outcomes_from<F: Fn(Request) -> Result<Response, Error>>(
    host: F,
    before: Seq<Job>,
    after: Seq<Job>,
) -> bool {
    forall|i: int|
        0 <= i < before.len() && before[i].status is Waiting && !(#[trigger] after[i].status is Waiting)
            ==> exists|res: Result<String, Error>|
            executes_to(after[i].job_type, strings_view(after[i].input@), host, res) && ends_with(
                after[i],
                res,
            )
}

proof fn lemma_count_update(s: Seq<Job>, i: int, x: Job)
    requires
        0 <= i < s.len(),
        s[i].status is Waiting,
        !(x.status is Waiting),
    ensures
        count_waiting(s.update(i, x)) + 1 == count_waiting(s),
    decreases s.len(),
{
    if i == s.len() - 1 {
        assert(s.update(i, x).drop_last() =~= s.drop_last());
    } else {
        assert(s.update(i, x).drop_last() =~= s.drop_last().update(i, x));
        lemma_count_update(s.drop_last(), i, x);
    }
}

/// Changing a waiting job leaves every succeeded job, and every fact about them, as it was.
proof fn lemma_update_waiting(s: Seq<Job>, i: int, x: Job)
    requires
        0 <= i < s.len(),
        s[i].status is Waiting,
    ensures
        forall|id: JobId| succeeded_in(s, id) ==> succeeded_in(s.update(i, x), id),
        forall|deps: Seq<JobId>|
            deps_succeeded(deps, s) ==> deps_succeeded(deps, s.update(i, x)),
        forall|deps: Seq<JobId>, input: Seq<Seq<char>>|
            dep_messages(s, deps, input) ==> dep_messages(s.update(i, x), deps, input),
{
    let u = s.update(i, x);
    assert forall|id: JobId| succeeded_in(s, id) implies succeeded_in(u, id) by {
        let k = choose|k: int| 0 <= k < s.len() && #[trigger] s[k].job_id == id && s[k].status is Succeeded;
        assert(u[k] == s[k]);
    }
    assert forall|deps: Seq<JobId>| deps_succeeded(deps, s) implies deps_succeeded(deps, u) by {
        assert forall|t: int| 0 <= t < deps.len() implies succeeded_in(u, #[trigger] deps[t]) by {
            assert(succeeded_in(s, deps[t]));
        }
    }
    assert forall|id: JobId, m: Seq<char>| message_of(s, id, m) implies message_of(u, id, m) by {
        let k = choose|k: int|
            0 <= k < s.len() && #[trigger] s[k].job_id == id && s[k].status is Succeeded
                && status_message(s[k].status) == m;
        assert(u[k] == s[k]);
    }
    assert forall|deps: Seq<JobId>, input: Seq<Seq<char>>|
        dep_messages(s, deps, input) implies dep_messages(u, deps, input) by {
        assert forall|t: int| 0 <= t < deps.len() implies #[trigger] message_of(u, deps[t], input[t]) by {
            assert(message_of(s, deps[t], input[t]));
        }
    }
}

/// Some succeeded job of `jobs` has identity `id` and output `out`.
pub open spec fn output_of(jobs: Seq<Job>, id: JobId, out: Seq<char>) -> bool {
    exists|k: int|
        0 <= k < jobs.len() && #[trigger] jobs[k].job_id == id && jobs[k].status is Succeeded
            && jobs[k].output@ == out
}

/// After a run, a job that ran and succeeded holds as input the outputs of its
/// dependencies, in the order they are declared, and those dependencies succeeded.
pub proof fn lemma_inputs_are_dependency_outputs(before: Seq<Job>, after: Seq<Job>, i: int)
    requires
        jobs_wf(after),
        ran_correctly(before, after),
        0 <= i < before.len(),
        before[i].status is Waiting,
        after[i].status is Succeeded,
    ensures
        after[i].input@.len() == after[i].dependencies@.len(),
        forall|t: int|
            0 <= t < after[i].dependencies@.len() ==> #[trigger] output_of(
                after,
                after[i].dependencies@[t],
                after[i].input@[t]@,
            ),
{
    let deps = after[i].dependencies@;
    let input = strings_view(after[i].input@);
    assert forall|t: int| 0 <= t < deps.len() implies #[trigger] output_of(
        after,
        deps[t],
        after[i].input@[t]@,
    ) by {
        assert(message_of(after, deps[t], input[t]));
        assert(input[t] == after[i].input@[t]@);
        let k = choose|k: int|
            0 <= k < after.len() && #[trigger] after[k].job_id == deps[t] && after[k].status is Succeeded
                && status_message(after[k].status) == input[t];
        assert(after[k].wf());
    }
}

/// A job leaves `Waiting` only through `run_job`, which asks that all its
/// dependencies have succeeded, and a succeeded job is never changed again: so
/// after a run every dependency of a job that ran is a succeeded job.
pub proof fn lemma_dependencies_succeed_first(before: Seq<Job>, after: Seq<Job>, b: int)
    requires
        ran_correctly(before, after),
        0 <= b < before.len(),
        before[b].status is Waiting,
        !(after[b].status is Waiting),
    ensures
        forall|t: int|
            0 <= t < after[b].dependencies@.len() ==> succeeded_in(
                after,
                #[trigger] after[b].dependencies@[t],
            ),
{
    assert(deps_succeeded(after[b].dependencies@, after));
}

/// A run takes at most one round per waiting job, plus the last round that finds none ready.
pub proof fn lemma_count_waiting_bound(jobs: Seq<Job>)
    ensures
        count_waiting(jobs) <= jobs.len(),
    decreases jobs.len(),
{
    if jobs.len() > 0 {
        lemma_count_waiting_bound(jobs.drop_last());
    }
}

impl Pipeline {
    /// Identities are unique and each job is well formed.
    pub open spec fn wf(&self) -> bool {
        jobs_wf(self@)
    }

    pub fn new() -> (r: Pipeline)
        ensures
            r@ == Seq::<Job>::empty(),
            r.wf(),
    {
        Pipeline { jobs: Vec::new() }
    }

    /// The jobs, in the order they were added.
    pub fn jobs(&self) -> (r: &Vec<Job>)
        ensures
            r@ == self@,
    {
        &self.jobs
    }

    /// Adds a job whose identity is not yet in the pipeline.
    pub fn add_job(&mut self, job: Job)
        requires
            old(self).wf(),
            job.wf(),
            forall|i: int| 0 <= i < old(self)@.len() ==> #[trigger] old(self)@[i].job_id != job.job_id,
        ensures
            final(self)@ == old(self)@.push(job),
            final(self).wf(),
    {
        self.jobs.push(job);
        assert(self@ == old(self)@.push(job));
    }

    /// Adds jobs whose identities are new and distinct.
    pub fn add_jobs(&mut self, jobs: Vec<Job>)
        requires
            old(self).wf(),
            jobs_wf(jobs@),
            forall|i: int, j: int|
                0 <= i < old(self)@.len() && 0 <= j < jobs@.len() ==> #[trigger] old(self)@[i].job_id
                    != #[trigger] jobs@[j].job_id,
        ensures
            final(self)@ == old(self)@ + jobs@,
            final(self).wf(),
    {
        let mut jobs = jobs;
        let ghost added = jobs@;
        self.jobs.append(&mut jobs);
        assert(self@ == old(self)@ + added);
        assert forall|i: int, j: int|
            0 <= i < self@.len() && 0 <= j < self@.len() && i != j implies #[trigger] self@[i].job_id
            != #[trigger] self@[j].job_id by {
            let n = old(self)@.len() as int;
            if i < n && j >= n {
                assert(self@[j] == added[j - n]);
            } else if i >= n && j < n {
                assert(self@[i] == added[i - n]);
            } else if i >= n && j >= n {
                assert(self@[i] == added[i - n]);
                assert(self@[j] == added[j - n]);
            }
        }
        assert forall|i: int| 0 <= i < self@.len() implies #[trigger] self@[i].wf() by {
            let n = old(self)@.len() as int;
            if i >= n {
                assert(self@[i] == added[i - n]);
            }
        }
    }

    /// Each job's identity and status, in order.
    pub fn get_job_statuses(&self) -> (r: Vec<(JobId, JobStatus)>)
        ensures
            r@.len() == self@.len(),
            forall|i: int|
                0 <= i < self@.len() ==> (#[trigger] r@[i]).0 == self@[i].job_id && r@[i].1
                    == self@[i].status,
    {
        let mut r: Vec<(JobId, JobStatus)> = Vec::new();
        let mut i: usize = 0;
        while i < self.jobs.len()
            invariant
                i <= self@.len(),
                r@.len() == i,
                forall|m: int|
                    0 <= m < i ==> (#[trigger] r@[m]).0 == self@[m].job_id && r@[m].1
                        == self@[m].status,
            decreases self@.len() - i,
        {
            r.push((self.jobs[i].get_id(), self.jobs[i].get_status()));
            i = i + 1;
        }
        r
    }

    /// The positions of the jobs that are waiting and whose dependencies all
    /// succeeded, in increasing order.
    pub fn get_runnable_jobs(&self) -> (r: Vec<usize>)
        ensures
            forall|k: int| 0 <= k < r@.len() ==> r@[k] < self@.len() && job_ready(self@, #[trigger] r@[k] as int),
            forall|k: int, m: int| 0 <= k < m < r@.len() ==> #[trigger] r@[k] < #[trigger] r@[m],
            forall|i: int| 0 <= i < self@.len() && job_ready(self@, i) ==> r@.contains(i as usize),
    {
        let mut r: Vec<usize> = Vec::new();
        let mut i: usize = 0;
        while i < self.jobs.len()
            invariant
                i <= self@.len(),
                forall|k: int| 0 <= k < r@.len() ==> r@[k] < i && job_ready(self@, #[trigger] r@[k] as int),
                forall|k: int, m: int| 0 <= k < m < r@.len() ==> #[trigger] r@[k] < #[trigger] r@[m],
                forall|m: int| 0 <= m < i && job_ready(self@, m) ==> r@.contains(m as usize),
            decreases self@.len() - i,
        {
            if self.jobs[i].status.is_waiting() && self.jobs[i].can_execute(self.jobs.as_slice()) {
                let ghost prev = r@;
                r.push(i);
                assert forall|m: int| 0 <= m < i + 1 && job_ready(self@, m) implies r@.contains(
                    m as usize,
                ) by {
                    if m < i {
                        let w = choose|w: int| 0 <= w < prev.len() && prev[w] == m as usize;
                        assert(r@[w] == prev[w]);
                    } else {
                        assert(r@[r@.len() - 1] == i);
                    }
                }
            }
            i = i + 1;
        }
        r
    }

    /// Whether no job is running.
    pub fn all_jobs_completed(&self) -> (r: bool)
        ensures
            r == none_running(self@),
    {
        let mut i: usize = 0;
        while i < self.jobs.len()
            invariant
                i <= self@.len(),
                forall|m: int| 0 <= m < i ==> !(#[trigger] self@[m].status is InProgress),
            decreases self@.len() - i,
        {
            if self.jobs[i].status.is_running() {
                return false;
            }
            i = i + 1;
        }
        true
    }

    /// The position of the job with identity `job_id`, if there is one.
    pub fn job_index(&self, job_id: JobId) -> (r: Option<usize>)
        ensures
            r matches Some(k) ==> k < self@.len() && self@[k as int].job_id == job_id,
            r is None ==> forall|k: int| 0 <= k < self@.len() ==> #[trigger] self@[k].job_id != job_id,
    {
        let mut i: usize = 0;
        while i < self.jobs.len()
            invariant
                i <= self@.len(),
                forall|k: int| 0 <= k < i ==> #[trigger] self@[k].job_id != job_id,
            decreases self@.len() - i,
        {
            if self.jobs[i].job_id == job_id {
                return Some(i);
            }
            i = i + 1;
        }
        None
    }

    /// The job with identity `job_id`.
    pub fn get_job(&self, job_id: JobId) -> (r: &Job)
        requires
            exists|k: int| 0 <= k < self@.len() && #[trigger] self@[k].job_id == job_id,
        ensures
            r.job_id == job_id,
            exists|k: int| 0 <= k < self@.len() && #[trigger] self@[k] == *r,
    {
        match self.job_index(job_id) {
            Some(k) => &self.jobs[k],
            None => {
                proof {
                    let k = choose|k: int| 0 <= k < self@.len() && #[trigger] self@[k].job_id == job_id;
                    assert(self@[k].job_id != job_id);
                }
                &self.jobs[0]
            },
        }
    }

    /// The messages of job `i`'s dependencies, in the order they are declared.
    pub fn get_dep_inputs(&self, i: usize) -> (r: Vec<String>)
        requires
            self.wf(),
            i < self@.len(),
            deps_succeeded(self@[i as int].dependencies@, self@),
        ensures
            dep_messages(self@, self@[i as int].dependencies@, strings_view(r@)),
    {
        let deps = &self.jobs[i].dependencies;
        let mut out: Vec<String> = Vec::new();
        let mut t: usize = 0;
        while t < deps.len()
            invariant
                self.wf(),
                *deps == self@[i as int].dependencies,
                deps_succeeded(deps@, self@),
                t <= deps@.len(),
                dep_messages(self@, deps@.take(t as int), strings_view(out@)),
            decreases deps@.len() - t,
        {
            let id = deps[t];
            assert(succeeded_in(self@, deps@[t as int]));
            let k = match self.job_index(id) {
                Some(k) => k,
                None => {
                    proof {
                        let k = choose|k: int|
                            0 <= k < self@.len() && #[trigger] self@[k].job_id == id
                                && self@[k].status is Succeeded;
                        assert(self@[k].job_id != id);
                    }
                    return out;
                },
            };
            proof {
                let w = choose|w: int|
                    0 <= w < self@.len() && #[trigger] self@[w].job_id == id
                        && self@[w].status is Succeeded;
                if w != k as int {
                    assert(self@[w].job_id != self@[k as int].job_id);
                }
            }
            match &self.jobs[k].status {
                JobStatus::Succeeded { msg, .. } => {
                    let ghost before = out@;
                    out.push(msg.clone());
                    proof {
                        let ghost sv = strings_view(out@);
                        assert(sv =~= strings_view(before).push(msg@));
                        let dt = deps@.take(t + 1);
                        assert forall|u: int| 0 <= u < dt.len() implies #[trigger] message_of(
                            self@,
                            dt[u],
                            sv[u],
                        ) by {
                            if u < t {
                                assert(dt[u] == deps@.take(t as int)[u]);
                                assert(sv[u] == strings_view(before)[u]);
                                assert(message_of(self@, deps@.take(t as int)[u], strings_view(before)[u]));
                            } else {
                                assert(self@[k as int].job_id == dt[u]);
                            }
                        }
                    }
                },
                _ => {
                    return out;
                },
            }
            t = t + 1;
        }
        assert(deps@.take(t as int) =~= deps@);
        out
    }

    /// Runs the ready job at position `i`: its input becomes the messages of its
    /// dependencies, in declared order, and it runs to a terminal status. No
    /// other job changes.
    pub fn run_job<F: Fn(Request) -> Result<Response, Error>>(&mut self, i: usize, host: &F)
        requires
            old(self).wf(),
            i < old(self)@.len(),
            job_ready(old(self)@, i as int),
            forall|q: Request| host.requires((q,)),
        ensures
            final(self).wf(),
            final(self)@ == old(self)@.update(i as int, final(self)@[i as int]),
            final(self)@[i as int].same_setup(old(self)@[i as int]),
            is_terminal(final(self)@[i as int].status),
            dep_messages(
                old(self)@,
                old(self)@[i as int].dependencies@,
                strings_view(final(self)@[i as int].input@),
            ),
            exists|res: Result<String, Error>|
                executes_to(
                    final(self)@[i as int].job_type,
                    strings_view(final(self)@[i as int].input@),
                    *host,
                    res,
                ) && ends_with(final(self)@[i as int], res),
    {
        let inputs = self.get_dep_inputs(i);
        let mut job = self.jobs.remove(i);
        job.set_input(inputs);
        let _ = job.execute(host);
        self.jobs.insert(i, job);
        assert(self@ =~= old(self)@.update(i as int, job));
        assert forall|a: int, b: int|
            0 <= a < self@.len() && 0 <= b < self@.len() && a != b implies #[trigger] self@[a].job_id
            != #[trigger] self@[b].job_id by {
            assert(old(self)@[a].job_id != old(self)@[b].job_id);
        }
        assert forall|a: int| 0 <= a < self@.len() implies #[trigger] self@[a].wf() by {
            assert(old(self)@[a].wf());
        }
    }

    /// Runs the pipeline to quiescence: rounds of the ready jobs, until none is
    /// ready. Every job that ran had its dependencies succeeded before it left
    /// `Waiting`, took their messages as input, and ended `Succeeded` or `Failed`;
    /// a job left `Waiting` has a dependency that did not succeed. Failed jobs do
    /// not stop the run.
    pub fn execute<F: Fn(Request) -> Result<Response, Error>>(&mut self, host: &F) -> (r: Result<
        (),
        Error,
    >)
        requires
            old(self).wf(),
            none_running(old(self)@),
            forall|q: Request| host.requires((q,)),
        ensures
            r is Ok,
            final(self).wf(),
            none_running(final(self)@),
            ran_correctly(old(self)@, final(self)@),
            outcomes_from(*host, old(self)@, final(self)@),
            forall|i: int|
                0 <= i < final(self)@.len() && #[trigger] final(self)@[i].status is Waiting
                    ==> !deps_succeeded(final(self)@[i].dependencies@, final(self)@),
    {
        let ghost before = self@;
        loop
            invariant
                self.wf(),
                none_running(self@),
                ran_correctly(before, self@),
                outcomes_from(*host, before, self@),
                forall|q: Request| host.requires((q,)),
            ensures
                self.wf(),
                none_running(self@),
                ran_correctly(before, self@),
                outcomes_from(*host, before, self@),
                forall|i: int|
                    0 <= i < self@.len() && #[trigger] self@[i].status is Waiting
                        ==> !deps_succeeded(self@[i].dependencies@, self@),
            decreases count_waiting(self@),
        {
            let runnable = self.get_runnable_jobs();
            if runnable.len() == 0 && self.all_jobs_completed() {
                assert forall|i: int|
                    0 <= i < self@.len() && #[trigger] self@[i].status is Waiting
                        implies !deps_succeeded(self@[i].dependencies@, self@) by {
                    if deps_succeeded(self@[i].dependencies@, self@) {
                        assert(job_ready(self@, i));
                        assert(runnable@.contains(i as usize));
                    }
                }
                break;
            }
            let ghost round = self@;
            let mut t: usize = 0;
            while t < runnable.len()
                invariant
                    self.wf(),
                    none_running(self@),
                    ran_correctly(before, self@),
                    outcomes_from(*host, before, self@),
                    forall|q: Request| host.requires((q,)),
                    self@.len() == round.len(),
                    t <= runnable@.len(),
                    forall|k: int|
                        0 <= k < runnable@.len() ==> runnable@[k] < round.len() && job_ready(
                            round,
                            #[trigger] runnable@[k] as int,
                        ),
                    forall|k: int, m: int|
                        0 <= k < m < runnable@.len() ==> #[trigger] runnable@[k] < #[trigger] runnable@[m],
                    forall|k: int|
                        t <= k < runnable@.len() ==> self@[#[trigger] runnable@[k] as int]
                            == round[runnable@[k] as int],
                    forall|j: int|
                        0 <= j < round.len() && !(round[j].status is Waiting) ==> #[trigger] self@[j]
                            == round[j],
                    count_waiting(self@) + t == count_waiting(round),
                decreases runnable@.len() - t,
            {
                let i = runnable[t];
                let ghost cur = self@;
                proof {
                    assert(job_ready(round, i as int));
                    assert forall|d: int|
                        0 <= d < cur[i as int].dependencies@.len() implies succeeded_in(
                        cur,
                        #[trigger] cur[i as int].dependencies@[d],
                    ) by {
                        let id = cur[i as int].dependencies@[d];
                        assert(succeeded_in(round, id));
                        let k = choose|k: int|
                            0 <= k < round.len() && #[trigger] round[k].job_id == id
                                && round[k].status is Succeeded;
                        assert(cur[k] == round[k]);
                    }
                }
                self.run_job(i, host);
                proof {
                    let x = self@[i as int];
                    lemma_count_update(cur, i as int, x);
                    lemma_update_waiting(cur, i as int, x);
                    assert forall|k: int| t + 1 <= k < runnable@.len() implies self@[
                        #[trigger] runnable@[k] as int] == round[runnable@[k] as int] by {
                        assert(runnable@[t as int] < runnable@[k]);
                    }
                    assert forall|m: int| 0 <= m < before.len() implies #[trigger] self@[m].same_setup(
                        before[m],
                    ) by {
                        assert(cur[m].same_setup(before[m]));
                    }
                    assert forall|m: int|
                        0 <= m < before.len() && !(before[m].status is Waiting) implies #[trigger] self@[m]
                        == before[m] by {
                        assert(cur[m] == before[m]);
                        if m == i {
                            assert(cur[i as int] == round[i as int]);
                        }
                    }
                    assert forall|m: int|
                        0 <= m < before.len() && before[m].status is Waiting && !(
                        #[trigger] self@[m].status is Waiting) implies {
                        &&& is_terminal(self@[m].status)
                        &&& deps_succeeded(self@[m].dependencies@, self@)
                        &&& dep_messages(self@, self@[m].dependencies@, strings_view(self@[m].input@))
                    } by {
                        if m != i {
                            assert(self@[m] == cur[m]);
                        }
                    }
                    assert forall|m: int|
                        0 <= m < before.len() && before[m].status is Waiting && !(
                        #[trigger] self@[m].status is Waiting) implies exists|res: Result<
                        String,
                        Error,
                    >|
                        executes_to(self@[m].job_type, strings_view(self@[m].input@), *host, res)
                            && ends_with(self@[m], res) by {
                        if m != i {
                            assert(self@[m] == cur[m]);
                        }
                    }
                }
                t = t + 1;
            }
        }
        Ok(())
    }
}

} // verus!
