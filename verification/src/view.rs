//! What the monitor shows of jobs: one row per job, and the report of test
//! benchmarks.
use vstd::prelude::*;

use crate::job::{elapsed_secs, valid_timestamp, Job, Timestamp, TIMESTAMP_MAX, TIMESTAMP_MIN};
use crate::s3::{opt_view, s3_url_opt_spec};
use crate::text::{decimal, int_to_string};

verus! {

/// One line of the monitor's table.
#[derive(Debug, PartialEq, Eq, PartialOrd, Ord)]
pub struct Row {
    pub id: i32,
    pub completed_dt: String,
    pub request_dt: String,
    pub processed_dt: String,
    pub processing_secs: String,
    pub processing_mins: String,
    pub benchmark_name: String,
    pub spec_name: String,
    pub status_code: String,
    pub out_url: String,
    pub err_url: String,
    pub result: String,
    pub result_color: String,
}

/// The rows of one test benchmark, with the difference of its source.
#[derive(Debug)]
pub struct TestCaseDetail {
    pub name: String,
    pub rows: Vec<Row>,
    pub diff: String,
}

/// Whether one test benchmark has a failing specification.
#[derive(Debug)]
pub struct TestCaseSummary {
    pub name: String,
    pub passing: String,
    pub passing_color: String,
}

/// The test report: the rows of the correct benchmark, and a summary and
/// details for each test benchmark.
#[derive(Debug)]
pub struct Results {
    pub correct: TestCaseDetail,
    pub summary: Vec<TestCaseSummary>,
    pub details: Vec<TestCaseDetail>,
}

/// The empty string.
pub fn e() -> (s: String)
    ensures
        s@ == Seq::<char>::empty(),
{
    String::new()
}

/// The text `%Y-%m-%d %H:%M:%S` that chrono writes for the instant `micros`
/// (microseconds since the epoch) seen at `offset_secs` seconds east of UTC.
pub uninterp spec fn local_text(micros: i64, offset_secs: i32) -> Seq<char>;

/// The machine's UTC offset, in seconds east, at an instant: chrono's
/// `DateTime::<Utc>::from_timestamp_micros`, `with_timezone(&Local)`, then
/// `offset().local_minus_utc()`. It depends on the machine's time zone, so
/// only its range is stated: every chrono `FixedOffset` lies strictly within a
/// day of UTC (`FixedOffset::east_opt`).
#[verifier::external_body]
fn local_offset(t: Timestamp) -> (o: i32)
    requires
        TIMESTAMP_MIN <= t <= TIMESTAMP_MAX,
    ensures
        -86_400 < o < 86_400,
{
    chrono::DateTime::<chrono::Utc>::from_timestamp_micros(t).unwrap().with_timezone(
        &chrono::Local,
    ).offset().local_minus_utc()
}

/// chrono's rendering of an instant at a fixed offset:
/// `DateTime::<Utc>::from_timestamp_micros`, `with_timezone` to
/// `FixedOffset::east_opt(o)`, `format("%Y-%m-%d %H:%M:%S")` and `to_string`.
/// The text is named; of it the contract also states its least length: `%Y`
/// writes at least four characters, each of the five other fields two, with
/// five separators.
#[verifier::external_body]
fn format_at_offset(t: Timestamp, o: i32) -> (s: String)
    requires
        TIMESTAMP_MIN <= t <= TIMESTAMP_MAX,
        -86_400 < o < 86_400,
    ensures
        s@ == local_text(t, o),
        s@.len() >= 19,
{
    chrono::DateTime::<chrono::Utc>::from_timestamp_micros(t).unwrap().with_timezone(
        &chrono::FixedOffset::east_opt(o).unwrap(),
    ).format("%Y-%m-%d %H:%M:%S").to_string()
}

/// The local date and time of an instant: the machine's offset at that
/// instant, then the instant rendered at that offset.
fn to_local_str(t: Timestamp) -> (s: String)
    requires
        TIMESTAMP_MIN <= t <= TIMESTAMP_MAX,
    ensures
        exists|o: i32| -86_400 < o < 86_400 && s@ == local_text(t, o),
        s@.len() >= 19,
{
    let o = local_offset(t);
    format_at_offset(t, o)
}

/// A time shown in a row: empty where unknown, else that instant as a local
/// date and time, at some offset within a day of UTC (the machine's).
pub open spec fn shows_time(t: Option<Timestamp>, s: Seq<char>) -> bool {
    match t {
        None => s.len() == 0,
        Some(x) => s.len() >= 19 && exists|o: i32| -86_400 < o < 86_400 && s == local_text(x, o),
    }
}

fn time_field(t: Option<Timestamp>) -> (s: String)
    requires
        valid_timestamp(t),
    ensures
        shows_time(t, s@),
{
    match t {
        Some(x) => to_local_str(x),
        None => e(),
    }
}

/// The text of an optional number: its decimal digits, or empty.
pub open spec fn opt_decimal(n: Option<int>) -> Seq<char> {
    match n {
        Some(x) => decimal(x),
        None => Seq::empty(),
    }
}

/// An optional text, or the empty string.
pub open spec fn or_empty(s: Option<Seq<char>>) -> Seq<char> {
    match s {
        Some(x) => x,
        None => Seq::empty(),
    }
}

/// The outcome shown for a job, and its color.
pub open spec fn outcome(completed: bool, proved: Option<bool>, timed_out: Option<bool>) -> (
    Seq<char>,
    Seq<char>,
) {
    if completed {
        match proved {
            Some(true) => ("proved true"@, "#98FB98"@),
            Some(false) => ("proved false"@, "#FFCCCB"@),
            None => if timed_out == Some(true) {
                ("timeout"@, "#FFCCCB"@)
            } else {
                ("error"@, "#FFCCCB"@)
            },
        }
    } else {
        ("incomplete"@, "#FFD300"@)
    }
}

fn outcome_of(j: &Job) -> (r: (String, String))
    ensures
        (r.0@, r.1@) == outcome(j.completed_dt is Some, j.proved, j.timed_out),
{
    if j.completed_dt.is_some() {
        match j.proved {
            Some(true) => (String::from_str("proved true"), String::from_str("#98FB98")),
            Some(false) => (String::from_str("proved false"), String::from_str("#FFCCCB")),
            None => {
                if j.timed_out.is_some() && j.timed_out.unwrap() {
                    (String::from_str("timeout"), String::from_str("#FFCCCB"))
                } else {
                    (String::from_str("error"), String::from_str("#FFCCCB"))
                }
            },
        }
    } else {
        (String::from_str("incomplete"), String::from_str("#FFD300"))
    }
}

fn opt_or_empty(s: Option<String>) -> (r: String)
    ensures
        r@ == or_empty(opt_view(s)),
{
    match s {
        Some(x) => x,
        None => e(),
    }
}

/// The row of a job that `row` gives, but for the three times, whose text
/// depends on the time zone, and for the processing minutes, which
/// `minutes` writes.
pub open spec fn row_fields(j: Job, r: Row) -> bool {
    let secs = elapsed_secs(j.processing_dt, j.completed_dt);
    let (result, color) = outcome(j.completed_dt is Some, j.proved, j.timed_out);
    &&& r.id == j.id
    &&& shows_time(j.completed_dt, r.completed_dt@)
    &&& shows_time(j.request_dt, r.request_dt@)
    &&& shows_time(j.processing_dt, r.processed_dt@)
    &&& r.benchmark_name@ == j.name@
    &&& r.processing_secs@ == opt_decimal(secs)
    &&& (secs is None ==> r.processing_mins@ == Seq::<char>::empty())
    &&& r.spec_name@ == j.spec_filename@
    &&& r.status_code@ == opt_decimal(
        match j.status_code {
            Some(c) => Some(c as int),
            None => None,
        },
    )
    &&& r.out_url@ == or_empty(s3_url_opt_spec(opt_view(j.s3_bucket), opt_view(j.output_log_s3_key)))
    &&& r.err_url@ == or_empty(s3_url_opt_spec(opt_view(j.s3_bucket), opt_view(j.error_log_s3_key)))
    &&& r.result@ == result
    &&& r.result_color@ == color
}

/// The processing minutes of the row are what `minutes` writes for the
/// processing seconds, where those are known.
pub open spec fn shows_minutes<F: Fn(i64) -> String>(j: Job, r: Row, minutes: &F) -> bool {
    forall|x: i64|
        elapsed_secs(j.processing_dt, j.completed_dt) == Some(x as int) ==> minutes.ensures(
            (x,),
            r.processing_mins,
        )
}

/// The monitor's row of a job. `minutes` writes the processing time, given in
/// seconds, as minutes.
pub fn row<F: Fn(i64) -> String>(j: &Job, minutes: &F) -> (r: Row)
    requires
        j.wf(),
        forall|x: i64| minutes.requires((x,)),
    ensures
        row_fields(*j, r),
        shows_minutes(*j, r, minutes),
{
    let (result, result_color) = outcome_of(j);
    let secs = j.get_processing_secs();
    let processing_secs = match secs {
        Some(x) => int_to_string(x),
        None => e(),
    };
    let processing_mins = match secs {
        Some(x) => minutes(x),
        None => e(),
    };
    let status_code = match j.status_code {
        Some(c) => int_to_string(c as i64),
        None => e(),
    };
    Row {
        id: j.id,
        completed_dt: time_field(j.completed_dt),
        request_dt: time_field(j.request_dt),
        processed_dt: time_field(j.processing_dt),
        benchmark_name: j.name.clone(),
        processing_secs,
        processing_mins,
        spec_name: j.spec_filename.clone(),
        status_code,
        out_url: opt_or_empty(j.output_log_s3_url()),
        err_url: opt_or_empty(j.error_log_s3_url()),
        result,
        result_color,
    }
}

/// The outcome a row shows: `incomplete` (yellow) until the run is over;
/// then the verdict decides where there is one, whatever `timed_out` holds
/// (`proved true` in green, `proved false` in red); without a verdict,
/// `timeout` where the run timed out and `error` otherwise, both in red.
pub proof fn lemma_row_outcome(j: Job, r: Row)
    requires
        row_fields(j, r),
    ensures
        j.completed_dt is None ==> r.result@ == "incomplete"@ && r.result_color@ == "#FFD300"@,
        j.completed_dt is Some && j.proved == Some(true) ==> r.result@ == "proved true"@
            && r.result_color@ == "#98FB98"@,
        j.completed_dt is Some && j.proved == Some(false) ==> r.result@ == "proved false"@
            && r.result_color@ == "#FFCCCB"@,
        j.completed_dt is Some && j.proved is None && j.timed_out == Some(true) ==> r.result@
            == "timeout"@ && r.result_color@ == "#FFCCCB"@,
        j.completed_dt is Some && j.proved is None && j.timed_out != Some(true) ==> r.result@
            == "error"@ && r.result_color@ == "#FFCCCB"@,
{
}

} // verus!
