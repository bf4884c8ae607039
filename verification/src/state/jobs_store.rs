//! The jobs started in the background.
//!
//! A job holds a handle to its process of a type `C` chosen by the caller; the store
//! never looks inside it. Whether a process has finished is asked of the system by the
//! caller, which hands the answers to [`list_and_reap`].
use vstd::prelude::*;

verus! {

/// What the system answered when asked whether a job's process has finished.
#[derive(Clone, Copy, Debug, PartialEq, Eq, Structural)]
pub enum WaitOutcome {
    /// The process has exited.
    Exited,
    /// The process is still running.
    Running,
    /// The system could not tell.
    Failed,
}

/// A process started in the background.
pub struct Job<C> {
    pub id: usize,
    pub pid: u32,
    pub command: String,
    pub child: C,
}

/// A job as reported by `jobs`.
#[derive(Debug)]
pub struct JobStatus {
    pub id: usize,
    pub command: String,
    pub status: String,
}

impl View for JobStatus {
    /// The job's number, its command line and its status.
    type V = (usize, Seq<char>, Seq<char>);

    open spec fn view(&self) -> (usize, Seq<char>, Seq<char>) {
        (self.id, self.command@, self.status@)
    }
}

/// The views of a sequence of statuses.
pub open spec fn statuses_view(v: Seq<JobStatus>) -> Seq<(usize, Seq<char>, Seq<char>)> {
    v.map_values(|s: JobStatus| s@)
}

/// The background jobs, in the order they were started.
pub struct JobStore<C> {
    pub jobs: Vec<Job<C>>,
}

impl<C> JobStore<C> {
    /// A store with no jobs.
    pub fn new() -> (store: Self)
        ensures
            store.jobs@ == Seq::<Job<C>>::empty(),
    {
        JobStore { jobs: Vec::new() }
    }
}

/// The largest job number in use, or 0 when there are no jobs.
pub open spec fn max_id<C>(jobs: Seq<Job<C>>) -> nat
    decreases jobs.len(),
{
    if jobs.len() == 0 {
        0
    } else {
        let rest = max_id(jobs.drop_last());
        if jobs.last().id > rest {
            jobs.last().id as nat
        } else {
            rest
        }
    }
}

/// The number given to the next job: one more than the largest in use.
pub open spec fn next_job_id<C>(jobs: Seq<Job<C>>) -> int {
    max_id(jobs) as int + 1
}

fn next_id<C>(jobs: &Vec<Job<C>>) -> (id: usize)
    requires
        max_id(jobs@) < usize::MAX,
    ensures
        id == next_job_id(jobs@),
{
    let mut max: usize = 0;
    let mut i: usize = 0;
    while i < jobs.len()
        invariant
            i <= jobs@.len(),
            max == max_id(jobs@.take(i as int)),
        decreases jobs@.len() - i,
    {
        proof {
            assert(jobs@.take(i + 1).drop_last() =~= jobs@.take(i as int));
        }
        if jobs[i].id > max {
            max = jobs[i].id;
        }
        i = i + 1;
    }
    proof {
        assert(jobs@.take(jobs@.len() as int) =~= jobs@);
    }
    max + 1
}

/// Adds a job for one process; returns the job's number and the process id.
pub fn push<C>(store: &mut JobStore<C>, child: C, pid: u32, command: String) -> (result: (
    usize,
    u32,
))
    requires
        max_id(old(store).jobs@) < usize::MAX,
    ensures
        result.0 == next_job_id(old(store).jobs@),
        result.1 == pid,
        final(store).jobs@ == old(store).jobs@.push(Job { id: result.0, pid, command, child }),
{
    let id = next_id(&store.jobs);
    store.jobs.push(Job { id, pid, command, child });
    (id, pid)
}

/// The jobs for the processes of one pipeline: all share one number and the command line.
pub open spec fn pipeline_jobs<C>(children: Seq<(C, u32)>, id: usize, command: String) -> Seq<
    Job<C>,
> {
    Seq::new(
        children.len(),
        |k: int| Job { id, pid: children[k].1, command, child: children[k].0 },
    )
}

/// Adds one job per process of a pipeline, all under one number; returns that number and
/// the process ids.
pub fn push_pipeline<C>(store: &mut JobStore<C>, children: Vec<(C, u32)>, command: String) -> (result: (
    usize,
    Vec<u32>,
))
    requires
        max_id(old(store).jobs@) < usize::MAX,
    ensures
        result.0 == next_job_id(old(store).jobs@),
        result.1@ == children@.map_values(|c: (C, u32)| c.1),
        final(store).jobs@ == old(store).jobs@ + pipeline_jobs(children@, result.0, command),
{
    let id = next_id(&store.jobs);
    let mut pids: Vec<u32> = Vec::new();
    let mut remaining = children;
    let ghost all = remaining@;
    let ghost start = store.jobs@;
    let mut k: usize = 0;
    let total = remaining.len();
    while remaining.len() > 0
        invariant
            total == all.len(),
            k <= all.len(),
            remaining@ == all.skip(k as int),
            pids@ == all.take(k as int).map_values(|c: (C, u32)| c.1),
            store.jobs@ == start + pipeline_jobs(all.take(k as int), id, command),
        decreases remaining@.len(),
    {
        let (child, pid) = remaining.remove(0);
        pids.push(pid);
        store.jobs.push(Job { id, pid, command: command.clone(), child });
        proof {
            assert(all.take(k + 1) =~= all.take(k as int).push(all[k as int]));
            assert(remaining@ =~= all.skip(k + 1));
            assert(pids@ =~= all.take(k + 1).map_values(|c: (C, u32)| c.1));
            assert(store.jobs@ =~= start + pipeline_jobs(all.take(k + 1), id, command));
        }
        k = k + 1;
    }
    proof {
        assert(all.take(k as int) =~= all);
    }
    (id, pids)
}

/// The status text of a job whose process gave this answer.
pub open spec fn status_text(outcome: WaitOutcome) -> Seq<char> {
    match outcome {
        WaitOutcome::Exited => "Done"@,
        WaitOutcome::Running => "Running"@,
        WaitOutcome::Failed => "Error"@,
    }
}

/// The jobs whose process is still running, in their order.
pub open spec fn still_running<C>(jobs: Seq<Job<C>>, outcomes: Seq<WaitOutcome>) -> Seq<Job<C>>
    decreases jobs.len(),
{
    if jobs.len() == 0 {
        seq![]
    } else {
        let rest = still_running(jobs.drop_last(), outcomes.drop_last());
        if outcomes.last() == WaitOutcome::Running {
            rest.push(jobs.last())
        } else {
            rest
        }
    }
}

/// The status of every job, given the answer for each job's process.
pub open spec fn job_statuses<C>(jobs: Seq<Job<C>>, outcomes: Seq<WaitOutcome>) -> Seq<
    (usize, Seq<char>, Seq<char>),
> {
    Seq::new(jobs.len(), |k: int| (jobs[k].id, jobs[k].command@, status_text(outcomes[k])))
}

fn status_string(outcome: WaitOutcome) -> (s: String)
    ensures
        s@ == status_text(outcome),
{
    match outcome {
        WaitOutcome::Exited => String::from_str("Done"),
        WaitOutcome::Running => String::from_str("Running"),
        WaitOutcome::Failed => String::from_str("Error"),
    }
}

/// Reports every job with its status, given for each job (in order) what the system
/// answered about its process, and drops the jobs whose process is no longer running.
pub fn list_and_reap<C>(store: &mut JobStore<C>, outcomes: &Vec<WaitOutcome>) -> (statuses: Vec<
    JobStatus,
>)
    requires
        outcomes@.len() == old(store).jobs@.len(),
    ensures
        statuses_view(statuses@) == job_statuses(old(store).jobs@, outcomes@),
        final(store).jobs@ == still_running(old(store).jobs@, outcomes@),
{
    let ghost all = store.jobs@;
    let n = store.jobs.len();
    let mut remaining: Vec<Job<C>> = Vec::new();
    std::mem::swap(&mut remaining, &mut store.jobs);
    let mut kept: Vec<Job<C>> = Vec::new();
    let mut statuses: Vec<JobStatus> = Vec::new();
    let mut i: usize = 0;
    while i < n
        invariant
            n == all.len(),
            outcomes@.len() == n,
            i <= n,
            remaining@ == all.skip(i as int),
            kept@ == still_running(all.take(i as int), outcomes@.take(i as int)),
            statuses@.len() == i,
            statuses_view(statuses@) == job_statuses(all.take(i as int), outcomes@.take(i as int)),
            store.jobs@ == Seq::<Job<C>>::empty(),
        decreases n - i,
    {
        let job = remaining.remove(0);
        let outcome = outcomes[i];
        proof {
            assert(all.take(i + 1).drop_last() =~= all.take(i as int));
            assert(outcomes@.take(i + 1).drop_last() =~= outcomes@.take(i as int));
            assert(all.take(i + 1).last() == all[i as int]);
            assert(remaining@ =~= all.skip(i + 1));
            assert(job == all[i as int]);
        }
        let ghost before = statuses_view(statuses@);
        let status = JobStatus {
            id: job.id,
            command: job.command.clone(),
            status: status_string(outcome),
        };
        proof {
            assert(status@ == (all[i as int].id, all[i as int].command@, status_text(
                outcomes@[i as int],
            )));
        }
        statuses.push(status);
        proof {
            assert(statuses_view(statuses@) =~= before.push(status@));
            assert(job_statuses(all.take(i + 1), outcomes@.take(i + 1)) =~= job_statuses(
                all.take(i as int),
                outcomes@.take(i as int),
            ).push(status@));
        }
        if outcome == WaitOutcome::Running {
            kept.push(job);
        }
        i = i + 1;
        proof {
            assert(statuses_view(statuses@) =~= job_statuses(all.take(i as int), outcomes@.take(i as int)));
        }
    }
    proof {
        assert(all.take(n as int) =~= all);
        assert(outcomes@.take(n as int) =~= outcomes@);
    }
    store.jobs = kept;
    statuses
}

/// The number, process id and command line of every job, in order.
pub fn snapshot<C>(store: &JobStore<C>) -> (entries: Vec<(usize, u32, String)>)
    ensures
        entries@.len() == store.jobs@.len(),
        forall|k: int|
            0 <= k < entries@.len() ==> {
                &&& (#[trigger] entries@[k]).0 == store.jobs@[k].id
                &&& entries@[k].1 == store.jobs@[k].pid
                &&& entries@[k].2@ == store.jobs@[k].command@
            },
{
    let mut entries: Vec<(usize, u32, String)> = Vec::new();
    let mut i: usize = 0;
    while i < store.jobs.len()
        invariant
            i <= store.jobs@.len(),
            entries@.len() == i,
            forall|k: int|
                0 <= k < i ==> {
                    &&& (#[trigger] entries@[k]).0 == store.jobs@[k].id
                    &&& entries@[k].1 == store.jobs@[k].pid
                    &&& entries@[k].2@ == store.jobs@[k].command@
                },
        decreases store.jobs@.len() - i,
    {
        let job = &store.jobs[i];
        entries.push((job.id, job.pid, job.command.clone()));
        i = i + 1;
    }
    entries
}

proof fn lemma_max_id_bounds<C>(jobs: Seq<Job<C>>)
    ensures
        forall|k: int| 0 <= k < jobs.len() ==> (#[trigger] jobs[k]).id <= max_id(jobs),
    decreases jobs.len(),
{
    if jobs.len() > 0 {
        lemma_max_id_bounds(jobs.drop_last());
        assert forall|k: int| 0 <= k < jobs.len() implies (#[trigger] jobs[k]).id <= max_id(
            jobs,
        ) by {
            if k < jobs.len() - 1 {
                assert(jobs[k] == jobs.drop_last()[k]);
            }
        }
    }
}

/// Law: the number given to a new job is larger than that of every job in the store, so
/// it is not in use.
pub proof fn law_new_job_number_is_unused<C>(jobs: Seq<Job<C>>)
    ensures
        forall|k: int| 0 <= k < jobs.len() ==> (#[trigger] jobs[k]).id < next_job_id(jobs),
{
    lemma_max_id_bounds(jobs);
}

/// Whether a job is one of the given jobs whose process is still running.
pub open spec fn was_running<C>(jobs: Seq<Job<C>>, outcomes: Seq<WaitOutcome>, job: Job<C>) -> bool {
    exists|j: int|
        #![trigger jobs[j]]
        0 <= j < jobs.len() && outcomes[j] == WaitOutcome::Running && jobs[j] == job
}

proof fn lemma_still_running_in_order<C>(jobs: Seq<Job<C>>, outcomes: Seq<WaitOutcome>)
    requires
        outcomes.len() == jobs.len(),
    ensures
        still_running(jobs, outcomes).len() <= jobs.len(),
        forall|k: int|
            0 <= k < jobs.len() && outcomes[k] == WaitOutcome::Running ==> still_running(
                jobs,
                outcomes,
            ).contains(#[trigger] jobs[k]),
        forall|k: int|
            0 <= k < still_running(jobs, outcomes).len() ==> was_running(
                jobs,
                outcomes,
                #[trigger] still_running(jobs, outcomes)[k],
            ),
    decreases jobs.len(),
{
    if jobs.len() > 0 {
        let rest_jobs = jobs.drop_last();
        let rest_outcomes = outcomes.drop_last();
        lemma_still_running_in_order(rest_jobs, rest_outcomes);
        let rest = still_running(rest_jobs, rest_outcomes);
        assert forall|k: int|
            0 <= k < jobs.len() && outcomes[k] == WaitOutcome::Running implies still_running(
            jobs,
            outcomes,
        ).contains(#[trigger] jobs[k]) by {
            if k < jobs.len() - 1 {
                assert(jobs[k] == rest_jobs[k]);
                assert(outcomes[k] == rest_outcomes[k]);
                assert(rest.contains(jobs[k]));
                if outcomes.last() == WaitOutcome::Running {
                    let i = choose|i: int| 0 <= i < rest.len() && rest[i] == jobs[k];
                    assert(rest.push(jobs.last())[i] == jobs[k]);
                }
            } else {
                assert(still_running(jobs, outcomes).last() == jobs[k]);
            }
        }
        assert forall|k: int| 0 <= k < still_running(jobs, outcomes).len() implies was_running(
            jobs,
            outcomes,
            #[trigger] still_running(jobs, outcomes)[k],
        ) by {
            if k < rest.len() {
                assert(still_running(jobs, outcomes)[k] == rest[k]);
                assert(was_running(rest_jobs, rest_outcomes, rest[k]));
                let j = choose|j: int|
                    #![trigger rest_jobs[j]]
                    0 <= j < rest_jobs.len() && rest_outcomes[j] == WaitOutcome::Running
                        && rest_jobs[j] == rest[k];
                assert(jobs[j] == rest_jobs[j]);
                assert(outcomes[j] == rest_outcomes[j]);
            } else {
                let j = jobs.len() - 1;
                assert(jobs[j] == still_running(jobs, outcomes)[k]);
                assert(outcomes[j] == WaitOutcome::Running);
            }
        }
    }
}

/// Law: reaping keeps exactly the jobs whose process is still running: every running job
/// stays, and every job that stays was running.
pub proof fn law_reaping_keeps_running_jobs<C>(jobs: Seq<Job<C>>, outcomes: Seq<WaitOutcome>)
    requires
        outcomes.len() == jobs.len(),
    ensures
        forall|k: int|
            0 <= k < jobs.len() && outcomes[k] == WaitOutcome::Running ==> still_running(
                jobs,
                outcomes,
            ).contains(#[trigger] jobs[k]),
        forall|k: int|
            0 <= k < still_running(jobs, outcomes).len() ==> was_running(
                jobs,
                outcomes,
                #[trigger] still_running(jobs, outcomes)[k],
            ),
{
    lemma_still_running_in_order(jobs, outcomes);
}

} // verus!
