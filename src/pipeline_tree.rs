//! The dependants view: for each job, the jobs that list it as a dependency.
use vstd::prelude::*;
use vstd::string::StringExecFns;
use crate::job::{Job, JobId};
use crate::pipeline::Pipeline;

verus! {

/// A node of the dependants view: a job's name and the trees of the jobs that
/// depend on it. The root is named `ROOT` and has the jobs without dependencies
/// as children.
#[derive(Debug)]
pub struct PipelineTree {
    pub name: String,
    pub dependency_of: Vec<PipelineTree>,
}

/// The positions below `upto` of the jobs that list `id` as a dependency, in order.
pub open spec fn dependants(jobs: Seq<Job>, id: JobId, upto: int) -> Seq<int>
    decreases upto,
{
    if upto <= 0 {
        seq![]
    } else {
        dependants(jobs, id, upto - 1) + if jobs[upto - 1].dependencies@.contains(id) {
            seq![upto - 1]
        } else {
            seq![]
        }
    }
}

/// The positions below `upto` of the jobs without dependencies, in order.
pub open spec fn roots(jobs: Seq<Job>, upto: int) -> Seq<int>
    decreases upto,
{
    if upto <= 0 {
        seq![]
    } else {
        roots(jobs, upto - 1) + if jobs[upto - 1].dependencies@.len() == 0 {
            seq![upto - 1]
        } else {
            seq![]
        }
    }
}

/// `h` strictly decreases from each job to each job that depends on it.
pub open spec fn acyclic_by(jobs: Seq<Job>, h: spec_fn(int) -> nat) -> bool {
    forall|i: int, j: int|
        0 <= i < jobs.len() && 0 <= j < jobs.len() && #[trigger] jobs[j].dependencies@.contains(
            #[trigger] jobs[i].job_id,
        ) ==> h(j) < h(i)
}

/// The dependency relation has no cycle.
pub open spec fn acyclic(jobs: Seq<Job>) -> bool {
    exists|h: spec_fn(int) -> nat| acyclic_by(jobs, h)
}

/// `t` is the dependants tree of job `i`.
pub open spec fn describes(t: PipelineTree, jobs: Seq<Job>, i: int, h: spec_fn(int) -> nat) -> bool
    decreases h(i),
{
    let ds = dependants(jobs, jobs[i].job_id, jobs.len() as int);
    &&& t.name@ == jobs[i].name@
    &&& t.dependency_of@.len() == ds.len()
    &&& forall|k: int|
        0 <= k < ds.len() ==> h(ds[k]) < h(i) && describes(
            #[trigger] t.dependency_of@[k],
            jobs,
            ds[k],
            h,
        )
}

proof fn lemma_dependants(jobs: Seq<Job>, id: JobId, upto: int)
    requires
        upto <= jobs.len(),
    ensures
        forall|k: int|
            0 <= k < dependants(jobs, id, upto).len() ==> 0 <= #[trigger] dependants(
                jobs,
                id,
                upto,
            )[k] < upto && jobs[dependants(jobs, id, upto)[k]].dependencies@.contains(id),
    decreases upto,
{
    if upto > 0 {
        lemma_dependants(jobs, id, upto - 1);
    }
}

fn lists(deps: &Vec<JobId>, id: JobId) -> (r: bool)
    ensures
        r == deps@.contains(id),
{
    let mut t: usize = 0;
    while t < deps.len()
        invariant
            t <= deps@.len(),
            forall|u: int| 0 <= u < t ==> deps@[u] != id,
        decreases deps@.len() - t,
    {
        if deps[t] == id {
            assert(deps@[t as int] == id);
            return true;
        }
        t = t + 1;
    }
    false
}

/// The trees of the jobs that depend on job `i`, in the order of the jobs.
/// A job with several dependencies appears once under each of them.
fn dependants_of(jobs: &Vec<Job>, i: usize, Ghost(h): Ghost<spec_fn(int) -> nat>) -> (r: Vec<
    PipelineTree,
>)
    requires
        i < jobs@.len(),
        acyclic_by(jobs@, h),
    ensures
        r@.len() == dependants(jobs@, jobs@[i as int].job_id, jobs@.len() as int).len(),
        forall|k: int|
            0 <= k < r@.len() ==> describes(
                #[trigger] r@[k],
                jobs@,
                dependants(jobs@, jobs@[i as int].job_id, jobs@.len() as int)[k],
                h,
            ),
    decreases h(i as int),
{
    let id = jobs[i].job_id;
    let mut r: Vec<PipelineTree> = Vec::new();
    let mut j: usize = 0;
    while j < jobs.len()
        invariant
            i < jobs@.len(),
            id == jobs@[i as int].job_id,
            acyclic_by(jobs@, h),
            j <= jobs@.len(),
            r@.len() == dependants(jobs@, id, j as int).len(),
            forall|k: int|
                0 <= k < r@.len() ==> describes(
                    #[trigger] r@[k],
                    jobs@,
                    dependants(jobs@, id, j as int)[k],
                    h,
                ),
        decreases jobs@.len() - j,
    {
        if lists(&jobs[j].dependencies, id) {
            assert(h(j as int) < h(i as int));
            let sub = dependants_of(jobs, j, Ghost(h));
            let node = PipelineTree { name: jobs[j].name.clone(), dependency_of: sub };
            proof {
                let ds = dependants(jobs@, jobs@[j as int].job_id, jobs@.len() as int);
                lemma_dependants(jobs@, jobs@[j as int].job_id, jobs@.len() as int);
                assert forall|k: int| 0 <= k < ds.len() implies h(ds[k]) < h(j as int) && describes(
                    #[trigger] node.dependency_of@[k],
                    jobs@,
                    ds[k],
                    h,
                ) by {
                    assert(jobs@[ds[k]].dependencies@.contains(jobs@[j as int].job_id));
                }
                assert(describes(node, jobs@, j as int, h));
            }
            let ghost prev = r@;
            r.push(node);
            assert(dependants(jobs@, id, j + 1) == dependants(jobs@, id, j as int).push(j as int));
            assert forall|k: int| 0 <= k < r@.len() implies describes(
                #[trigger] r@[k],
                jobs@,
                dependants(jobs@, id, j + 1)[k],
                h,
            ) by {
                if k < prev.len() {
                    assert(r@[k] == prev[k]);
                }
            }
        } else {
            assert(dependants(jobs@, id, j + 1) =~= dependants(jobs@, id, j as int));
        }
        j = j + 1;
    }
    r
}

impl PipelineTree {
    /// The dependants view of an acyclic pipeline.
    pub fn new(pipeline: &Pipeline) -> (r: Self)
        requires
            acyclic(pipeline@),
        ensures
            r.name@ == "ROOT"@,
            r.dependency_of@.len() == roots(pipeline@, pipeline@.len() as int).len(),
            exists|h: spec_fn(int) -> nat|
                acyclic_by(pipeline@, h) && forall|k: int|
                    0 <= k < r.dependency_of@.len() ==> describes(
                        #[trigger] r.dependency_of@[k],
                        pipeline@,
                        roots(pipeline@, pipeline@.len() as int)[k],
                        h,
                    ),
    {
        Self::generate_with_dependants(pipeline)
    }

    fn generate_with_dependants(pipeline: &Pipeline) -> (r: Self)
        requires
            acyclic(pipeline@),
        ensures
            r.name@ == "ROOT"@,
            r.dependency_of@.len() == roots(pipeline@, pipeline@.len() as int).len(),
            exists|h: spec_fn(int) -> nat|
                acyclic_by(pipeline@, h) && forall|k: int|
                    0 <= k < r.dependency_of@.len() ==> describes(
                        #[trigger] r.dependency_of@[k],
                        pipeline@,
                        roots(pipeline@, pipeline@.len() as int)[k],
                        h,
                    ),
    {
        let jobs = pipeline.jobs();
        let ghost h = choose|h: spec_fn(int) -> nat| acyclic_by(pipeline@, h);
        let mut children: Vec<PipelineTree> = Vec::new();
        let mut i: usize = 0;
        while i < jobs.len()
            invariant
                jobs@ == pipeline@,
                acyclic_by(jobs@, h),
                i <= jobs@.len(),
                children@.len() == roots(jobs@, i as int).len(),
                forall|k: int|
                    0 <= k < children@.len() ==> describes(
                        #[trigger] children@[k],
                        jobs@,
                        roots(jobs@, i as int)[k],
                        h,
                    ),
            decreases jobs@.len() - i,
        {
            if jobs[i].dependencies.len() == 0 {
                let sub = dependants_of(jobs, i, Ghost(h));
                let node = PipelineTree { name: jobs[i].name.clone(), dependency_of: sub };
                proof {
                    let ds = dependants(jobs@, jobs@[i as int].job_id, jobs@.len() as int);
                    lemma_dependants(jobs@, jobs@[i as int].job_id, jobs@.len() as int);
                    assert forall|k: int| 0 <= k < ds.len() implies h(ds[k]) < h(i as int) && describes(
                        #[trigger] node.dependency_of@[k],
                        jobs@,
                        ds[k],
                        h,
                    ) by {
                        assert(jobs@[ds[k]].dependencies@.contains(jobs@[i as int].job_id));
                    }
                    assert(describes(node, jobs@, i as int, h));
                }
                let ghost prev = children@;
                children.push(node);
                assert(roots(jobs@, i + 1) == roots(jobs@, i as int).push(i as int));
                assert forall|k: int| 0 <= k < children@.len() implies describes(
                    #[trigger] children@[k],
                    jobs@,
                    roots(jobs@, i + 1)[k],
                    h,
                ) by {
                    if k < prev.len() {
                        assert(children@[k] == prev[k]);
                    }
                }
            } else {
                assert(roots(jobs@, i + 1) =~= roots(jobs@, i as int));
            }
            i = i + 1;
        }
        PipelineTree { name: String::from_str("ROOT"), dependency_of: children }
    }
}

} // verus!
