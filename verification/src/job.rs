//! Jobs of the prover queue, as the `job` table holds them, and the decisions
//! that the worker takes on them.
use vstd::prelude::*;

use crate::s3::{opt_view, s3_url, s3_url_opt_spec};
use crate::text::{decimal, int_to_string};

verus! {

/// A point in time: microseconds since 1970-01-01 00:00:00 UTC.
pub type Timestamp = i64;

/// The earliest instant that a chrono `DateTime<Utc>` holds: the start of
/// year -262143.
pub const TIMESTAMP_MIN: i64 = -8_334_601_228_800_000_000;

/// The last microsecond that a chrono `DateTime<Utc>` holds: the end of year
/// 262142.
pub const TIMESTAMP_MAX: i64 = 8_210_266_876_799_999_999;

/// A time that a chrono `DateTime<Utc>` can hold, as every time read from the
/// database does.
pub open spec fn valid_timestamp(t: Option<Timestamp>) -> bool {
    match t {
        Some(x) => TIMESTAMP_MIN <= x <= TIMESTAMP_MAX,
        None => true,
    }
}

/// One row of the `job` table.
#[derive(Debug)]
pub struct Job {
    pub id: i32,
    pub name: String,
    pub request_dt: Option<Timestamp>,
    pub s3_bucket: Option<String>,
    pub s3_key: Option<String>,
    pub spec_filename: String,
    pub kprove: String,
    pub semantics: String,
    pub timeout_sec: Option<i32>,
    pub processing_dt: Option<Timestamp>,
    pub output_log_s3_key: Option<String>,
    pub error_log_s3_key: Option<String>,
    pub status_code: Option<i32>,
    pub timed_out: Option<bool>,
    pub proved: Option<bool>,
    pub completed_dt: Option<Timestamp>,
}

fn clone_opt_string(s: &Option<String>) -> (r: Option<String>)
    ensures
        r == *s,
{
    match s {
        Some(x) => Some(x.clone()),
        None => None,
    }
}

impl Clone for Job {
    fn clone(&self) -> (r: Self)
        ensures
            r == *self,
    {
        Job {
            id: self.id,
            name: self.name.clone(),
            request_dt: self.request_dt,
            s3_bucket: clone_opt_string(&self.s3_bucket),
            s3_key: clone_opt_string(&self.s3_key),
            spec_filename: self.spec_filename.clone(),
            kprove: self.kprove.clone(),
            semantics: self.semantics.clone(),
            timeout_sec: self.timeout_sec,
            processing_dt: self.processing_dt,
            output_log_s3_key: clone_opt_string(&self.output_log_s3_key),
            error_log_s3_key: clone_opt_string(&self.error_log_s3_key),
            status_code: self.status_code,
            timed_out: self.timed_out,
            proved: self.proved,
            completed_dt: self.completed_dt,
        }
    }
}

/// Division of integers that rounds toward zero, as Rust's `/` does.
pub open spec fn trunc_div(a: int, b: int) -> int {
    if a >= 0 {
        a / b
    } else {
        -((-a) / b)
    }
}

/// Whole seconds from `start` to `end`, rounded toward zero, where both are
/// known.
pub open spec fn elapsed_secs(start: Option<Timestamp>, end: Option<Timestamp>) -> Option<int> {
    match (start, end) {
        (Some(p), Some(c)) => Some(trunc_div(c - p, 1_000_000)),
        _ => None,
    }
}

/// The processing time is known exactly when both its ends are, and is the
/// whole number of seconds between them, rounded toward zero: it lies within
/// a second of the true difference, on the side of zero.
pub proof fn lemma_elapsed_secs_rounds_toward_zero(start: Option<Timestamp>, end: Option<Timestamp>)
    ensures
        elapsed_secs(start, end) is Some <==> (start is Some && end is Some),
        start is Some && end is Some ==> ({
            let s = elapsed_secs(start, end).unwrap();
            let d = end.unwrap() - start.unwrap();
            &&& d >= 0 ==> 0 <= s && s * 1_000_000 <= d < s * 1_000_000 + 1_000_000
            &&& d < 0 ==> s <= 0 && s * 1_000_000 - 1_000_000 < d <= s * 1_000_000
        }),
{
}

impl Job {
    /// Every time of the job is one that chrono can hold.
    pub open spec fn wf(&self) -> bool {
        &&& valid_timestamp(self.request_dt)
        &&& valid_timestamp(self.processing_dt)
        &&& valid_timestamp(self.completed_dt)
    }

    /// Seconds that the job took, from the start of processing to completion.
    pub fn get_processing_secs(&self) -> (r: Option<i64>)
        ensures
            match r {
                Some(x) => elapsed_secs(self.processing_dt, self.completed_dt) == Some(x as int),
                None => elapsed_secs(self.processing_dt, self.completed_dt) is None,
            },
    {
        match (self.processing_dt, self.completed_dt) {
            (Some(p), Some(c)) => {
                let d: i128 = c as i128 - p as i128;
                let s: i128 = if d >= 0 {
                    d / 1_000_000
                } else {
                    -((-d) / 1_000_000)
                };
                Some(s as i64)
            },
            _ => None,
        }
    }

    /// Address of the prover's output log, once it has been uploaded.
    pub fn output_log_s3_url(&self) -> (r: Option<String>)
        ensures
            opt_view(r) == s3_url_opt_spec(opt_view(self.s3_bucket), opt_view(self.output_log_s3_key)),
    {
        match (&self.s3_bucket, &self.output_log_s3_key) {
            (Some(b), Some(k)) => Some(s3_url(b, k)),
            _ => None,
        }
    }

    /// Address of the prover's error log, once it has been uploaded.
    pub fn error_log_s3_url(&self) -> (r: Option<String>)
        ensures
            opt_view(r) == s3_url_opt_spec(opt_view(self.s3_bucket), opt_view(self.error_log_s3_key)),
    {
        match (&self.s3_bucket, &self.error_log_s3_key) {
            (Some(b), Some(k)) => Some(s3_url(b, k)),
            _ => None,
        }
    }
}

/// The query that lists jobs: all of them, or the one with the given id.
pub open spec fn jobs_query_spec(job_id: Option<i32>) -> Seq<char> {
    "SELECT * FROM job "@ + match job_id {
        Some(id) => "where id="@ + decimal(id as int),
        None => Seq::empty(),
    }
}

/// The query for one job is the query for all of them narrowed by a `where`
/// clause on the id, written in decimal.
pub proof fn lemma_jobs_query_narrows(id: i32)
    ensures
        jobs_query_spec(None) == "SELECT * FROM job "@,
        jobs_query_spec(Some(id)) == jobs_query_spec(None) + "where id="@ + decimal(id as int),
{
    assert(jobs_query_spec(None) =~= "SELECT * FROM job "@);
    assert(jobs_query_spec(Some(id)) =~= jobs_query_spec(None) + "where id="@ + decimal(id as int));
}

/// The text of the query that lists jobs.
pub fn jobs_query(job_id: Option<i32>) -> (q: String)
    ensures
        q@ == jobs_query_spec(job_id),
{
    let mut q = String::from_str("SELECT * FROM job ");
    match job_id {
        Some(id) => {
            q.append("where id=");
            let n = int_to_string(id as i64);
            q.append(n.as_str());
        },
        None => {},
    }
    q
}

/// The job that the query for one id returned. A missing job is a caller
/// error: `jobs` must hold at least one row.
pub fn get_job(jobs: Vec<Job>) -> (j: Job)
    requires
        jobs@.len() > 0,
    ensures
        j == jobs@[0],
{
    let mut jobs = jobs;
    jobs.remove(0)
}

/// The id of the first listed job that nobody has started processing.
pub open spec fn next_job(s: Seq<Job>) -> Option<i32>
    decreases s.len(),
{
    if s.len() == 0 {
        None
    } else if s[0].processing_dt is None {
        Some(s[0].id)
    } else {
        next_job(s.drop_first())
    }
}

/// The job that the worker takes next from the listed jobs: the first one that
/// nobody has started processing, or `None` where every job has been started.
pub fn pop_job(jobs: &Vec<Job>) -> (r: Option<i32>)
    ensures
        r == next_job(jobs@),
        r is None <==> forall|k: int| 0 <= k < jobs@.len() ==> (#[trigger] jobs@[k]).processing_dt is Some,
        r matches Some(id) ==> exists|i: int|
            0 <= i < jobs@.len() && (#[trigger] jobs@[i]).processing_dt is None && jobs@[i].id == id
                && forall|k: int| 0 <= k < i ==> (#[trigger] jobs@[k]).processing_dt is Some,
{
    let mut i: usize = 0;
    proof {
        assert(jobs@.subrange(0, jobs@.len() as int) =~= jobs@);
    }
    while i < jobs.len()
        invariant
            i <= jobs@.len(),
            forall|k: int| 0 <= k < i ==> (#[trigger] jobs@[k]).processing_dt is Some,
            next_job(jobs@) == next_job(jobs@.subrange(i as int, jobs@.len() as int)),
        decreases jobs@.len() - i,
    {
        let ghost rest = jobs@.subrange(i as int, jobs@.len() as int);
        proof {
            assert(rest[0] == jobs@[i as int]);
            assert(rest.drop_first() =~= jobs@.subrange(i + 1, jobs@.len() as int));
        }
        if jobs[i].processing_dt.is_none() {
            proof {
                assert(jobs@[i as int].processing_dt is None);
            }
            return Some(jobs[i].id);
        }
        i = i + 1;
    }
    None
}

/// What the worker does after asking the queue for a job.
pub enum WorkerAction {
    /// Wait this many milliseconds before asking again.
    Sleep { millis: u64 },
    /// Run the prover on this job.
    Run { job_id: i32 },
}

/// The worker's decision: run the job it was given, or wait three seconds when
/// the queue had none.
pub fn next_action(popped: Option<i32>) -> (a: WorkerAction)
    ensures
        match popped {
            Some(id) => a == (WorkerAction::Run { job_id: id }),
            None => a == (WorkerAction::Sleep { millis: 3000 }),
        },
{
    match popped {
        Some(id) => WorkerAction::Run { job_id: id },
        None => WorkerAction::Sleep { millis: 3000 },
    }
}

/// The S3 key under which a log file of a job is kept.
pub fn log_key(s3_key: &String, filename: &String) -> (k: String)
    ensures
        k@ == s3_key@ + "/generated/"@ + filename@,
{
    let mut k = s3_key.clone();
    k.append("/generated/");
    k.append(filename.as_str());
    k
}

/// The directory of a K distribution under the application's directory.
pub fn k_path(app_path: &String, kprove: &String) -> (p: String)
    ensures
        p@ == app_path@ + "/"@ + kprove@ + "/"@ + "k-distribution"@,
{
    let mut p = app_path.clone();
    p.append("/");
    p.append(kprove.as_str());
    p.append("/");
    p.append("k-distribution");
    p
}

/// The directory of compiled semantics under the application's directory.
pub fn semantics_path(app_path: &String, semantics: &String) -> (p: String)
    ensures
        p@ == app_path@ + "/"@ + semantics@ + "/"@ + ".build/java"@,
{
    let mut p = app_path.clone();
    p.append("/");
    p.append(semantics.as_str());
    p.append("/");
    p.append(".build/java");
    p
}

} // verus!
