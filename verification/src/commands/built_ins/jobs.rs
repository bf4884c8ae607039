//! `jobs`: lists the background jobs and their status.
use crate::numbers::{decimal, usize_to_string};
use crate::state::jobs_store::{JobStatus, statuses_view};
use crate::syntax::command_invocation::CommandInvocation;
use crate::text::{append_padded_right, pad_right, push_char, str_eq};
use vstd::prelude::*;

verus! {

/// The marker of the job at `index` among `count` jobs: `+` for the latest, `-` for the
/// one before it, a space for the others.
pub open spec fn job_marker(index: int, count: int) -> char {
    if index + 1 == count {
        '+'
    } else if count >= 1 && index + 1 == count - 1 {
        '-'
    } else {
        ' '
    }
}

/// The marker of the job at `index` among `job_count` jobs.
pub fn job_order(index: usize, job_count: usize) -> (marker: char)
    requires
        index < usize::MAX,
    ensures
        marker == job_marker(index as int, job_count as int),
{
    if index + 1 == job_count {
        '+'
    } else if index + 1 == job_count.saturating_sub(1) {
        '-'
    } else {
        ' '
    }
}

/// The line listing one job: `[id]`, its marker, two spaces, its status padded to 24
/// columns, and its command line.
pub open spec fn job_line(job: (usize, Seq<char>, Seq<char>), marker: char) -> Seq<char> {
    "["@ + decimal(job.0 as nat) + "]"@ + seq![marker] + "  "@ + pad_right(job.2, 24) + job.1
        + "\n"@
}

/// The listing of the first `to` jobs, each shown when `shown` says so.
pub open spec fn job_listing(
    jobs: Seq<(usize, Seq<char>, Seq<char>)>,
    shown: Seq<bool>,
    to: int,
) -> Seq<char>
    decreases to,
{
    if to <= 0 {
        seq![]
    } else {
        job_listing(jobs, shown, to - 1) + if shown[to - 1] {
            job_line(jobs[to - 1], job_marker(to - 1, jobs.len() as int))
        } else {
            seq![]
        }
    }
}

/// Writes the line of one job.
pub fn print_job(job: &JobStatus, job_order: char, writer: &mut String)
    ensures
        final(writer)@ == old(writer)@ + job_line(job@, job_order),
{
    writer.append("[");
    writer.append(usize_to_string(job.id).as_str());
    writer.append("]");
    push_char(writer, job_order);
    writer.append("  ");
    append_padded_right(writer, job.status.as_str(), 24);
    writer.append(job.command.as_str());
    writer.append("\n");
    proof {
        assert(writer@ =~= old(writer)@ + job_line(job@, job_order));
    }
}

/// Writes the lines of the jobs for which `should_print` holds.
pub fn print_jobs(
    jobs_snapshot: &Vec<JobStatus>,
    writer: &mut String,
    should_print: impl Fn(&JobStatus) -> bool,
)
    requires
        forall|job: &JobStatus| should_print.requires((job,)),
    ensures
        exists|shown: Seq<bool>|
            {
                &&& shown.len() == jobs_snapshot@.len()
                &&& forall|k: int|
                    0 <= k < shown.len() ==> should_print.ensures(
                        (&jobs_snapshot@[k],),
                        #[trigger] shown[k],
                    )
                &&& final(writer)@ == old(writer)@ + job_listing(
                    statuses_view(jobs_snapshot@),
                    shown,
                    jobs_snapshot@.len() as int,
                )
            },
{
    let ghost jobs = statuses_view(jobs_snapshot@);
    let ghost mut shown: Seq<bool> = seq![];
    let count = jobs_snapshot.len();
    let mut index: usize = 0;
    while index < count
        invariant
            count == jobs_snapshot@.len(),
            jobs == statuses_view(jobs_snapshot@),
            index <= count,
            shown.len() == index,
            forall|job: &JobStatus| should_print.requires((job,)),
            forall|k: int|
                0 <= k < shown.len() ==> should_print.ensures(
                    (&jobs_snapshot@[k],),
                    #[trigger] shown[k],
                ),
            writer@ == old(writer)@ + job_listing(jobs, shown, index as int),
        decreases count - index,
    {
        let job = &jobs_snapshot[index];
        let print = should_print(job);
        let ghost before = shown;
        proof {
            shown = shown.push(print);
            assert(job_listing(jobs, shown, index as int) == job_listing(jobs, before, index as int))
                by {
                lemma_job_listing_prefix(jobs, before, shown, index as int);
            }
            assert(jobs[index as int] == job@);
        }
        if print {
            print_job(job, job_order(index, count), writer);
        }
        index = index + 1;
    }
    proof {
        assert(shown.len() == jobs_snapshot@.len());
    }
}

proof fn lemma_job_listing_prefix(
    jobs: Seq<(usize, Seq<char>, Seq<char>)>,
    a: Seq<bool>,
    b: Seq<bool>,
    to: int,
)
    requires
        0 <= to <= a.len(),
        to <= b.len(),
        forall|k: int| 0 <= k < to ==> a[k] == b[k],
    ensures
        job_listing(jobs, a, to) == job_listing(jobs, b, to),
    decreases to,
{
    if to > 0 {
        lemma_job_listing_prefix(jobs, a, b, to - 1);
    }
}

/// All jobs shown.
pub open spec fn all_shown(count: int) -> Seq<bool> {
    Seq::new(count as nat, |k: int| true)
}

/// The jobs whose status is `Done` shown.
pub open spec fn done_shown(jobs: Seq<(usize, Seq<char>, Seq<char>)>) -> Seq<bool> {
    Seq::new(jobs.len(), |k: int| jobs[k].2 == "Done"@)
}

/// Lists every job, given the current status of each.
pub fn jobs(_command: &CommandInvocation, jobs_snapshot: &Vec<JobStatus>, writer: &mut String)
    ensures
        final(writer)@ == old(writer)@ + job_listing(
            statuses_view(jobs_snapshot@),
            all_shown(jobs_snapshot@.len() as int),
            jobs_snapshot@.len() as int,
        ),
{
    let show_all = |_job: &JobStatus| -> (print: bool)
        ensures
            print,
        { true };
    print_jobs(jobs_snapshot, writer, &show_all);
    proof {
        let jobs = statuses_view(jobs_snapshot@);
        let shown = choose|shown: Seq<bool>|
            {
                &&& shown.len() == jobs_snapshot@.len()
                &&& forall|k: int|
                    0 <= k < shown.len() ==> (&show_all).ensures(
                        (&jobs_snapshot@[k],),
                        #[trigger] shown[k],
                    )
                &&& writer@ == old(writer)@ + job_listing(jobs, shown, jobs_snapshot@.len() as int)
            };
        assert(shown =~= all_shown(jobs_snapshot@.len() as int)) by {
            assert forall|k: int| 0 <= k < shown.len() implies shown[k] by {
                assert((&show_all).ensures((&jobs_snapshot@[k],), shown[k]));
            }
        }
    }
}

/// Lists the jobs that are done, given the current status of each.
pub fn print_done_jobs(jobs_snapshot: &Vec<JobStatus>, writer: &mut String)
    ensures
        final(writer)@ == old(writer)@ + job_listing(
            statuses_view(jobs_snapshot@),
            done_shown(statuses_view(jobs_snapshot@)),
            jobs_snapshot@.len() as int,
        ),
{
    let show_done = |job: &JobStatus| -> (print: bool)
        ensures
            print == (job.status@ == "Done"@),
        { str_eq(job.status.as_str(), "Done") };
    print_jobs(jobs_snapshot, writer, &show_done);
    proof {
        let jobs = statuses_view(jobs_snapshot@);
        let shown = choose|shown: Seq<bool>|
            {
                &&& shown.len() == jobs_snapshot@.len()
                &&& forall|k: int|
                    0 <= k < shown.len() ==> (&show_done).ensures(
                        (&jobs_snapshot@[k],),
                        #[trigger] shown[k],
                    )
                &&& writer@ == old(writer)@ + job_listing(jobs, shown, jobs_snapshot@.len() as int)
            };
        assert(shown =~= done_shown(jobs)) by {
            assert forall|k: int| 0 <= k < shown.len() implies shown[k] == done_shown(jobs)[k] by {
                assert((&show_done).ensures((&jobs_snapshot@[k],), shown[k]));
                assert(jobs[k] == jobs_snapshot@[k]@);
            }
        }
    }
}

} // verus!
