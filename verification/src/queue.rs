//! What the programs' statements do to the `job` table, and what that means
//! for the queue: a job that the worker took is not handed out again until the
//! table is reset.
use vstd::prelude::*;

use crate::job::{next_job, Job, Timestamp};

verus! {

/// A statement that the programs run on the `job` table.
pub enum JobUpdate {
    /// `UPDATE job SET processing_dt = $at WHERE id = $id`: the worker takes
    /// a job.
    Start { id: i32, at: Timestamp },
    /// `UPDATE job SET output_log_s3_key, error_log_s3_key, status_code,
    /// timed_out, proved, completed_dt WHERE id = $id`: a run is recorded.
    Complete {
        id: i32,
        output_log_s3_key: String,
        error_log_s3_key: String,
        status_code: Option<i32>,
        timed_out: bool,
        proved: Option<bool>,
        at: Timestamp,
    },
    /// `INSERT INTO job ...`: a new, unstarted job is queued.
    Insert { job: Job },
    /// `UPDATE job SET processing_dt = null`: every job is marked unstarted.
    Reset,
    /// `DELETE from job`: the table is emptied.
    Delete,
}

/// The table after one statement.
pub open spec fn apply_update(s: Seq<Job>, u: JobUpdate) -> Seq<Job> {
    match u {
        JobUpdate::Start { id, at } => Seq::new(
            s.len(),
            |k: int| if s[k].id == id { Job { processing_dt: Some(at), ..s[k] } } else { s[k] },
        ),
        JobUpdate::Complete {
            id,
            output_log_s3_key,
            error_log_s3_key,
            status_code,
            timed_out,
            proved,
            at,
        } => Seq::new(
            s.len(),
            |k: int|
                if s[k].id == id {
                    Job {
                        output_log_s3_key: Some(output_log_s3_key),
                        error_log_s3_key: Some(error_log_s3_key),
                        status_code,
                        timed_out: Some(timed_out),
                        proved,
                        completed_dt: Some(at),
                        ..s[k]
                    }
                } else {
                    s[k]
                },
        ),
        JobUpdate::Insert { job } => s.push(job),
        JobUpdate::Reset => Seq::new(s.len(), |k: int| Job { processing_dt: None, ..s[k] }),
        JobUpdate::Delete => Seq::empty(),
    }
}

/// The table after the statements, in order.
pub open spec fn apply_updates(s: Seq<Job>, us: Seq<JobUpdate>) -> Seq<Job>
    decreases us.len(),
{
    if us.len() == 0 {
        s
    } else {
        apply_updates(apply_update(s, us[0]), us.drop_first())
    }
}

/// Every row with id `a` has been started.
pub open spec fn all_started(s: Seq<Job>, a: i32) -> bool {
    forall|k: int| 0 <= k < s.len() && (#[trigger] s[k]).id == a ==> s[k].processing_dt is Some
}

/// A statement that neither resets the table nor queues a job with id `a`.
pub open spec fn keeps_started(u: JobUpdate, a: i32) -> bool {
    &&& !(u is Reset)
    &&& (u matches JobUpdate::Insert { job } ==> job.id != a)
}

proof fn lemma_started_not_next(s: Seq<Job>, a: i32)
    requires
        all_started(s, a),
    ensures
        next_job(s) != Some(a),
    decreases s.len(),
{
    if s.len() > 0 {
        assert(s[0].id == a ==> s[0].processing_dt is Some);
        assert forall|k: int|
            0 <= k < s.drop_first().len() && (#[trigger] s.drop_first()[k]).id == a implies s.drop_first()[k].processing_dt is Some by {
            assert(s.drop_first()[k] == s[k + 1]);
        }
        lemma_started_not_next(s.drop_first(), a);
    }
}

proof fn lemma_updates_keep_started(s: Seq<Job>, a: i32, us: Seq<JobUpdate>)
    requires
        all_started(s, a),
        forall|k: int| 0 <= k < us.len() ==> keeps_started(#[trigger] us[k], a),
    ensures
        all_started(apply_updates(s, us), a),
    decreases us.len(),
{
    if us.len() > 0 {
        let t = apply_update(s, us[0]);
        assert(keeps_started(us[0], a));
        assert forall|k: int| 0 <= k < t.len() && (#[trigger] t[k]).id == a implies t[k].processing_dt is Some by {
            match us[0] {
                JobUpdate::Insert { job } => {
                    if k < s.len() {
                        assert(t[k] == s[k]);
                    }
                },
                _ => {},
            }
        }
        assert forall|k: int| 0 <= k < us.drop_first().len() implies keeps_started(
            #[trigger] us.drop_first()[k],
            a,
        ) by {
            assert(us.drop_first()[k] == us[k + 1]);
        }
        lemma_updates_keep_started(t, a, us.drop_first());
    }
}

/// A job is handed out at most once until the table is reset: once the worker
/// has taken job `a` (the statement that marks it started), no later pick
/// returns `a`, whatever runs are recorded, jobs queued under other ids or
/// jobs started meanwhile, so long as no reset comes in between.
pub proof fn lemma_taken_job_not_handed_out_again(
    jobs: Seq<Job>,
    a: i32,
    at: Timestamp,
    us: Seq<JobUpdate>,
)
    requires
        next_job(jobs) == Some(a),
        forall|k: int| 0 <= k < us.len() ==> keeps_started(#[trigger] us[k], a),
    ensures
        next_job(apply_updates(apply_update(jobs, JobUpdate::Start { id: a, at }), us)) != Some(a),
{
    let started = apply_update(jobs, JobUpdate::Start { id: a, at });
    assert(all_started(started, a));
    lemma_updates_keep_started(started, a, us);
    lemma_started_not_next(apply_updates(started, us), a);
}

/// After a reset every job can be taken again: the next pick is the first
/// listed job, where there is one.
pub proof fn lemma_reset_makes_first_job_next(jobs: Seq<Job>)
    requires
        jobs.len() > 0,
    ensures
        next_job(apply_update(jobs, JobUpdate::Reset)) == Some(jobs[0].id),
{
    let r = apply_update(jobs, JobUpdate::Reset);
    assert(r[0].processing_dt is None);
}

} // verus!
