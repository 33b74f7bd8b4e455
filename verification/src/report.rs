//! The monitor's pages: all jobs by request time, and the report of test
//! benchmarks, grouped by name.
use vstd::prelude::*;

use crate::job::{Job, Timestamp};
use crate::order::{is_stable_sort, lemma_filter_keeps_order, sort_jobs, sorted_by, JobOrder};
use crate::text::{has_prefix, starts_with};
use crate::view::{e, row, row_fields, shows_minutes, Results, Row, TestCaseDetail, TestCaseSummary};

verus! {

broadcast use vstd::seq_lib::group_to_multiset_ensures;

/// The rows of jobs, one for each, in order.
pub fn rows_of<F: Fn(i64) -> String>(jobs: &Vec<Job>, minutes: &F) -> (rows: Vec<Row>)
    requires
        forall|k: int| 0 <= k < jobs@.len() ==> (#[trigger] jobs@[k]).wf(),
        forall|x: i64| minutes.requires((x,)),
    ensures
        rows@.len() == jobs@.len(),
        forall|k: int| 0 <= k < jobs@.len() ==> row_fields(#[trigger] jobs@[k], rows@[k]),
        forall|k: int| 0 <= k < jobs@.len() ==> shows_minutes(#[trigger] jobs@[k], rows@[k], minutes),
{
    let mut rows: Vec<Row> = Vec::new();
    let mut i: usize = 0;
    while i < jobs.len()
        invariant
            i <= jobs@.len(),
            rows@.len() == i,
            forall|k: int| 0 <= k < jobs@.len() ==> (#[trigger] jobs@[k]).wf(),
            forall|x: i64| minutes.requires((x,)),
            forall|k: int| 0 <= k < i ==> row_fields(#[trigger] jobs@[k], rows@[k]),
            forall|k: int| 0 <= k < i ==> shows_minutes(#[trigger] jobs@[k], rows@[k], minutes),
        decreases jobs@.len() - i,
    {
        let r = row(&jobs[i], minutes);
        rows.push(r);
        i = i + 1;
    }
    rows
}

/// The monitor's table: the rows of all jobs, by request time.
pub fn monitor_rows<F: Fn(i64) -> String>(jobs: Vec<Job>, minutes: &F) -> (rows: Vec<Row>)
    requires
        forall|k: int| 0 <= k < jobs@.len() ==> (#[trigger] jobs@[k]).wf(),
        forall|x: i64| minutes.requires((x,)),
    ensures
        exists|sorted: Seq<Job>|
            {
                &&& is_stable_sort(JobOrder::RequestTime, jobs@, sorted)
                &&& rows@.len() == sorted.len()
                &&& forall|k: int| 0 <= k < sorted.len() ==> row_fields(#[trigger] sorted[k], rows@[k])
                &&& forall|k: int|
                    0 <= k < sorted.len() ==> shows_minutes(#[trigger] sorted[k], rows@[k], minutes)
            },
{
    let ghost orig = jobs@;
    let sorted = sort_jobs(jobs, JobOrder::RequestTime);
    proof {
        assert forall|k: int| 0 <= k < sorted@.len() implies (#[trigger] sorted@[k]).wf() by {
            assert(sorted@.contains(sorted@[k]));
            assert(orig.to_multiset().count(sorted@[k]) > 0);
            let m = choose|m: int| 0 <= m < orig.len() && orig[m] == sorted@[k];
            assert(orig[m].wf());
        }
    }
    rows_of(&sorted, minutes)
}

/// A job of the test report: requested at or after `cutoff`, with a name that
/// starts with `prefix`.
pub open spec fn is_test_job(j: Job, cutoff: Timestamp, prefix: Seq<char>) -> bool {
    j.request_dt.unwrap() >= cutoff && has_prefix(j.name@, prefix)
}

/// A job of the report's reference benchmark: requested at or after `cutoff`,
/// with a name that starts with `prefix`, and an id of at least `min_id`.
pub open spec fn is_reference_job(j: Job, cutoff: Timestamp, prefix: Seq<char>, min_id: i32) -> bool {
    j.request_dt.unwrap() >= cutoff && has_prefix(j.name@, prefix) && j.id >= min_id
}

/// The jobs of the test report, in their order. Every job must carry a request
/// time.
pub fn select_test_jobs(jobs: &Vec<Job>, cutoff: Timestamp, prefix: &str) -> (out: Vec<Job>)
    requires
        forall|k: int| 0 <= k < jobs@.len() ==> (#[trigger] jobs@[k]).request_dt is Some,
    ensures
        out@ == jobs@.filter(|j: Job| is_test_job(j, cutoff, prefix@)),
        forall|order: JobOrder| #[trigger] sorted_by(order, jobs@) ==> sorted_by(order, out@),
{
    let ghost p = |j: Job| is_test_job(j, cutoff, prefix@);
    let mut out: Vec<Job> = Vec::new();
    let mut i: usize = 0;
    proof {
        reveal(Seq::filter);
        assert(jobs@.subrange(0, 0) =~= Seq::<Job>::empty());
    }
    while i < jobs.len()
        invariant
            i <= jobs@.len(),
            forall|k: int| 0 <= k < jobs@.len() ==> (#[trigger] jobs@[k]).request_dt is Some,
            p == (|j: Job| is_test_job(j, cutoff, prefix@)),
            out@ == jobs@.subrange(0, i as int).filter(p),
        decreases jobs@.len() - i,
    {
        let j = &jobs[i];
        let keep = j.request_dt.unwrap() >= cutoff && starts_with(j.name.as_str(), prefix);
        proof {
            assert(jobs@.subrange(0, i + 1) =~= jobs@.subrange(0, i as int).push(*j));
            jobs@.subrange(0, i as int).lemma_filter_push(*j, p);
        }
        if keep {
            out.push(j.clone());
        }
        i = i + 1;
    }
    proof {
        assert(jobs@.subrange(0, jobs@.len() as int) =~= jobs@);
        assert forall|order: JobOrder| #[trigger] sorted_by(order, jobs@) implies sorted_by(
            order,
            out@,
        ) by {
            lemma_filter_keeps_order(order, jobs@, p);
        }
    }
    out
}

/// The jobs of the report's reference benchmark, in their order. Every job
/// must carry a request time.
pub fn select_reference_jobs(jobs: &Vec<Job>, cutoff: Timestamp, prefix: &str, min_id: i32) -> (out:
    Vec<Job>)
    requires
        forall|k: int| 0 <= k < jobs@.len() ==> (#[trigger] jobs@[k]).request_dt is Some,
    ensures
        out@ == jobs@.filter(|j: Job| is_reference_job(j, cutoff, prefix@, min_id)),
        forall|order: JobOrder| #[trigger] sorted_by(order, jobs@) ==> sorted_by(order, out@),
{
    let ghost p = |j: Job| is_reference_job(j, cutoff, prefix@, min_id);
    let mut out: Vec<Job> = Vec::new();
    let mut i: usize = 0;
    proof {
        reveal(Seq::filter);
        assert(jobs@.subrange(0, 0) =~= Seq::<Job>::empty());
    }
    while i < jobs.len()
        invariant
            i <= jobs@.len(),
            forall|k: int| 0 <= k < jobs@.len() ==> (#[trigger] jobs@[k]).request_dt is Some,
            p == (|j: Job| is_reference_job(j, cutoff, prefix@, min_id)),
            out@ == jobs@.subrange(0, i as int).filter(p),
        decreases jobs@.len() - i,
    {
        let j = &jobs[i];
        let keep = j.request_dt.unwrap() >= cutoff && starts_with(j.name.as_str(), prefix) && j.id
            >= min_id;
        proof {
            assert(jobs@.subrange(0, i + 1) =~= jobs@.subrange(0, i as int).push(*j));
            jobs@.subrange(0, i as int).lemma_filter_push(*j, p);
        }
        if keep {
            out.push(j.clone());
        }
        i = i + 1;
    }
    proof {
        assert(jobs@.subrange(0, jobs@.len() as int) =~= jobs@);
        assert forall|order: JobOrder| #[trigger] sorted_by(order, jobs@) implies sorted_by(
            order,
            out@,
        ) by {
            lemma_filter_keeps_order(order, jobs@, p);
        }
    }
    out
}

/// A job whose run is over but did not prove its specification.
pub open spec fn failed_spec(j: Job) -> bool {
    j.completed_dt is Some && (j.proved is None || j.proved == Some(false))
}

/// Whether any job of a benchmark completed without proving its
/// specification.
pub fn has_failed_spec(jobs: &Vec<Job>) -> (r: bool)
    ensures
        r == exists|k: int| 0 <= k < jobs@.len() && failed_spec(#[trigger] jobs@[k]),
        r == exists|k: int|
            0 <= k < jobs@.len() && (#[trigger] jobs@[k]).completed_dt is Some && jobs@[k].proved
                != Some(true),
{
    let mut i: usize = 0;
    while i < jobs.len()
        invariant
            i <= jobs@.len(),
            forall|k: int| 0 <= k < i ==> !failed_spec(#[trigger] jobs@[k]),
        decreases jobs@.len() - i,
    {
        let j = &jobs[i];
        if j.completed_dt.is_some() && (j.proved.is_none() || !j.proved.unwrap()) {
            proof {
                assert(failed_spec(jobs@[i as int]));
                lemma_failed_spec_meaning(jobs@[i as int]);
            }
            return true;
        }
        i = i + 1;
    }
    proof {
        assert forall|k: int| 0 <= k < jobs@.len() implies !((#[trigger] jobs@[k]).completed_dt is Some
            && jobs@[k].proved != Some(true)) by {
            lemma_failed_spec_meaning(jobs@[k]);
        }
    }
    false
}

/// A job fails its specification when its run is over and did not prove it:
/// refuted, timed out or crashed alike, whatever `timed_out` holds.
pub proof fn lemma_failed_spec_meaning(j: Job)
    ensures
        failed_spec(j) == (j.completed_dt is Some && j.proved != Some(true)),
{
    match j.proved {
        Some(b) => {
            if b {
                assert(j.proved == Some(true));
            } else {
                assert(j.proved == Some(false));
            }
        },
        None => {},
    }
}

/// The summary line of a test benchmark. A benchmark with a failing
/// specification is marked `yes` in green: a test benchmark holds a seeded
/// bug, so a failing specification is the expected outcome.
pub fn test_case_summary(name: &String, has_failed_spec: bool) -> (s: TestCaseSummary)
    ensures
        s.name@ == name@,
        s.passing@ == (if has_failed_spec { "yes"@ } else { "no"@ }),
        s.passing_color@ == (if has_failed_spec { "#98FB98"@ } else { "#FFCCCB"@ }),
{
    TestCaseSummary {
        name: name.clone(),
        passing: String::from_str(if has_failed_spec { "yes" } else { "no" }),
        passing_color: String::from_str(if has_failed_spec { "#98FB98" } else { "#FFCCCB" }),
    }
}


/// The jobs of one benchmark: consecutive jobs with the same name.
pub struct Group {
    pub name: String,
    pub jobs: Vec<Job>,
}

/// The jobs of the groups, one sequence each.
pub open spec fn group_members(gs: Seq<Group>) -> Seq<Seq<Job>> {
    gs.map_values(|g: Group| g.jobs@)
}

/// The sequences of `ss` one after the other.
pub open spec fn concat_all(ss: Seq<Seq<Job>>) -> Seq<Job>
    decreases ss.len(),
{
    if ss.len() == 0 {
        Seq::empty()
    } else {
        concat_all(ss.drop_last()) + ss.last()
    }
}

/// `gs` splits `jobs` into runs of equal names, as `group_by` on the name
/// does: the groups hold the jobs in order, none is empty, all jobs of a group
/// carry its name, and neighbouring groups have different names.
pub open spec fn is_grouping(jobs: Seq<Job>, gs: Seq<Group>) -> bool {
    &&& concat_all(group_members(gs)) == jobs
    &&& forall|k: int| 0 <= k < gs.len() ==> (#[trigger] gs[k]).jobs@.len() > 0
    &&& forall|k: int, m: int|
        0 <= k < gs.len() && 0 <= m < gs[k].jobs@.len() ==> (#[trigger] gs[k].jobs@[m]).name@
            == gs[k].name@
    &&& forall|k: int| 0 <= k < gs.len() - 1 ==> (#[trigger] gs[k]).name@ != gs[k + 1].name@
}

/// Splits jobs into runs of jobs with equal names.
pub fn group_by_name(jobs: Vec<Job>) -> (groups: Vec<Group>)
    ensures
        is_grouping(jobs@, groups@),
{
    let ghost orig = jobs@;
    let mut rest = jobs;
    let mut groups: Vec<Group> = Vec::new();
    let mut cur_name = String::new();
    let mut cur: Vec<Job> = Vec::new();
    let ghost mut i: int = 0;
    proof {
        assert(orig.subrange(0, orig.len() as int) =~= rest@);
        assert(concat_all(group_members(groups@)) + cur@ =~= orig.subrange(0, 0));
    }
    while rest.len() > 0
        invariant
            0 <= i <= orig.len(),
            rest@ == orig.subrange(i, orig.len() as int),
            concat_all(group_members(groups@)) + cur@ == orig.subrange(0, i),
            i == 0 ==> groups@.len() == 0 && cur@.len() == 0,
            i > 0 ==> cur@.len() > 0,
            forall|m: int| 0 <= m < cur@.len() ==> (#[trigger] cur@[m]).name@ == cur_name@,
            groups@.len() > 0 ==> groups@.last().name@ != cur_name@,
            forall|k: int| 0 <= k < groups@.len() ==> (#[trigger] groups@[k]).jobs@.len() > 0,
            forall|k: int, m: int|
                0 <= k < groups@.len() && 0 <= m < groups@[k].jobs@.len() ==> (#[trigger] groups@[k].jobs@[m]).name@
                    == groups@[k].name@,
            forall|k: int| 0 <= k < groups@.len() - 1 ==> (#[trigger] groups@[k]).name@ != groups@[k + 1].name@,
        decreases rest@.len(),
    {
        let x = rest.remove(0);
        proof {
            assert(x == orig[i]);
            assert(orig.subrange(0, i + 1) =~= orig.subrange(0, i).push(x));
        }
        if cur.len() > 0 && x.name == cur_name {
            cur.push(x);
            proof {
                assert(concat_all(group_members(groups@)) + cur@ =~= orig.subrange(0, i + 1));
            }
        } else {
            let ghost old_groups = groups@;
            let ghost old_cur = cur@;
            let ghost old_name = cur_name@;
            let mut done_name = x.name.clone();
            let mut done: Vec<Job> = Vec::new();
            done.push(x);
            std::mem::swap(&mut cur, &mut done);
            std::mem::swap(&mut cur_name, &mut done_name);
            if done.len() > 0 {
                groups.push(Group { name: done_name, jobs: done });
                proof {
                    assert(group_members(groups@) =~= group_members(old_groups).push(old_cur));
                    assert(group_members(groups@).drop_last() =~= group_members(old_groups));
                    assert(concat_all(group_members(groups@)) == concat_all(group_members(old_groups))
                        + old_cur);
                    assert(concat_all(group_members(groups@)) + cur@ =~= orig.subrange(0, i + 1));
                    assert forall|k: int, m: int|
                        0 <= k < groups@.len() && 0 <= m < groups@[k].jobs@.len() implies (#[trigger] groups@[k].jobs@[m]).name@
                        == groups@[k].name@ by {
                        if k < old_groups.len() {
                            assert(groups@[k] == old_groups[k]);
                        }
                    }
                    assert forall|k: int| 0 <= k < groups@.len() - 1 implies (#[trigger] groups@[k]).name@
                        != groups@[k + 1].name@ by {
                        assert(groups@[k] == old_groups[k]);
                        if k + 1 < old_groups.len() {
                            assert(groups@[k + 1] == old_groups[k + 1]);
                        }
                    }
                }
            } else {
                proof {
                    assert(concat_all(group_members(groups@)) + cur@ =~= orig.subrange(0, i + 1));
                }
            }
        }
        proof {
            i = i + 1;
            assert(rest@ =~= orig.subrange(i, orig.len() as int));
        }
    }
    if cur.len() > 0 {
        let ghost old_groups = groups@;
        let ghost old_cur = cur@;
        groups.push(Group { name: cur_name, jobs: cur });
        proof {
            assert(group_members(groups@) =~= group_members(old_groups).push(old_cur));
            assert(group_members(groups@).drop_last() =~= group_members(old_groups));
            assert forall|k: int, m: int|
                0 <= k < groups@.len() && 0 <= m < groups@[k].jobs@.len() implies (#[trigger] groups@[k].jobs@[m]).name@
                == groups@[k].name@ by {
                if k < old_groups.len() {
                    assert(groups@[k] == old_groups[k]);
                }
            }
            assert forall|k: int| 0 <= k < groups@.len() - 1 implies (#[trigger] groups@[k]).name@
                != groups@[k + 1].name@ by {
                assert(groups@[k] == old_groups[k]);
                if k + 1 < old_groups.len() {
                    assert(groups@[k + 1] == old_groups[k + 1]);
                }
            }
        }
    }
    proof {
        assert(orig.subrange(0, orig.len() as int) =~= orig);
        assert(concat_all(group_members(groups@)) =~= concat_all(group_members(groups@)) + Seq::<
            Job,
        >::empty());
    }
    groups
}


/// Names of test benchmarks start with this.
pub const TEST_PREFIX: &'static str = "TEST-";

/// The name of the reference benchmark, whose rows head the report.
pub const REFERENCE_BENCHMARK: &'static str = "multisig13";

/// Runs of the reference benchmark before this id are left out.
pub const REFERENCE_MIN_ID: i32 = 552;

/// The instant that an RFC 3339 date and time denotes, in microseconds since
/// the epoch, or `None` where chrono does not accept the text.
pub uninterp spec fn rfc3339_micros(s: Seq<char>) -> Option<i64>;

/// chrono's `DateTime::parse_from_rfc3339`, then `timestamp_micros`. The
/// parse is a function of the text alone; its rules take pages, so the
/// result is named, not stated.
#[verifier::external_body]
fn parse_rfc3339(s: &str) -> (r: Option<Timestamp>)
    ensures
        r == rfc3339_micros(s@),
{
    match chrono::DateTime::parse_from_rfc3339(s) {
        Ok(d) => Some(d.timestamp_micros()),
        Err(_) => None,
    }
}

/// The earliest request time of the jobs in the test report: the start of
/// 9 August 2019, UTC.
pub fn test_report_cutoff() -> (r: Option<Timestamp>)
    ensures
        r == rfc3339_micros("2019-08-09T00:00:00+00:00"@),
{
    parse_rfc3339("2019-08-09T00:00:00+00:00")
}


proof fn lemma_concat_neighbours(ss: Seq<Seq<Job>>, k: int)
    requires
        0 <= k < ss.len() - 1,
        ss[k].len() > 0,
        ss[k + 1].len() > 0,
    ensures
        exists|p: int|
            0 <= p < concat_all(ss).len() - 1 && #[trigger] concat_all(ss)[p] == ss[k].last()
                && concat_all(ss)[p + 1] == ss[k + 1][0],
    decreases ss.len(),
{
    let dl = ss.drop_last();
    let c = concat_all(dl);
    if k + 1 == ss.len() - 1 {
        assert(dl.drop_last() + seq![dl.last()] =~= dl);
        assert(c == concat_all(dl.drop_last()) + ss[k]);
        let p = c.len() - 1;
        assert(concat_all(ss) == c + ss.last());
        assert(concat_all(ss)[p] == ss[k].last());
        assert(concat_all(ss)[p + 1] == ss[k + 1][0]);
    } else {
        lemma_concat_neighbours(dl, k);
        let p = choose|p: int|
            0 <= p < c.len() - 1 && #[trigger] c[p] == dl[k].last() && c[p + 1] == dl[k + 1][0];
        assert(concat_all(ss) == c + ss.last());
        assert(concat_all(ss)[p] == c[p]);
        assert(concat_all(ss)[p + 1] == c[p + 1]);
    }
}

/// Grouping jobs that are sorted by name gives one group per name: the names
/// of the groups increase strictly, so no two groups share a name.
pub proof fn lemma_sorted_grouping_names_increase(jobs: Seq<Job>, groups: Seq<Group>)
    requires
        crate::order::sorted_by(JobOrder::NameThenRequestTime, jobs),
        is_grouping(jobs, groups),
    ensures
        forall|k: int, l: int|
            0 <= k < l < groups.len() ==> crate::text::lex_lt(
                #[trigger] groups[k].name@,
                #[trigger] groups[l].name@,
            ),
        forall|k: int, l: int|
            0 <= k < l < groups.len() ==> (#[trigger] groups[k]).name@ != (#[trigger] groups[l]).name@,
{
    let ss = group_members(groups);
    assert forall|k: int| 0 <= k < groups.len() - 1 implies crate::text::lex_lt(
        #[trigger] groups[k].name@,
        groups[k + 1].name@,
    ) by {
        assert(ss[k] == groups[k].jobs@);
        assert(ss[k + 1] == groups[k + 1].jobs@);
        assert(groups[k].jobs@.len() > 0);
        assert(groups[k + 1].jobs@.len() > 0);
        lemma_concat_neighbours(ss, k);
        let p = choose|p: int|
            0 <= p < jobs.len() - 1 && #[trigger] jobs[p] == ss[k].last() && jobs[p + 1] == ss[k
                + 1][0];
        assert(groups[k].jobs@[groups[k].jobs@.len() - 1].name@ == groups[k].name@);
        assert(groups[k + 1].jobs@[0].name@ == groups[k + 1].name@);
        assert(crate::order::job_le(JobOrder::NameThenRequestTime, jobs[p], jobs[p + 1]));
    }
    assert forall|k: int, l: int| 0 <= k < l < groups.len() implies crate::text::lex_lt(
        #[trigger] groups[k].name@,
        #[trigger] groups[l].name@,
    ) by {
        lemma_names_chain(groups, k, l);
    }
    assert forall|k: int, l: int| 0 <= k < l < groups.len() implies (#[trigger] groups[k]).name@
        != (#[trigger] groups[l]).name@ by {
        lemma_names_chain(groups, k, l);
        crate::text::lemma_lex_lt_total(groups[k].name@, groups[l].name@);
    }
}

proof fn lemma_names_chain(groups: Seq<Group>, k: int, l: int)
    requires
        0 <= k < l < groups.len(),
        forall|m: int| 0 <= m < groups.len() - 1 ==> crate::text::lex_lt(
            #[trigger] groups[m].name@,
            groups[m + 1].name@,
        ),
    ensures
        crate::text::lex_lt(groups[k].name@, groups[l].name@),
    decreases l - k,
{
    if l > k + 1 {
        lemma_names_chain(groups, k, l - 1);
        assert(crate::text::lex_lt(groups[l - 1].name@, groups[l].name@));
        crate::text::lemma_lex_lt_trans(groups[k].name@, groups[l - 1].name@, groups[l].name@);
    }
}

/// `rows` are the rows of `jobs`, one for each, in order.
pub open spec fn rows_match<F: Fn(i64) -> String>(jobs: Seq<Job>, rows: Seq<Row>, minutes: &F) -> bool {
    &&& rows.len() == jobs.len()
    &&& forall|k: int| 0 <= k < jobs.len() ==> row_fields(#[trigger] jobs[k], rows[k])
    &&& forall|k: int| 0 <= k < jobs.len() ==> shows_minutes(#[trigger] jobs[k], rows[k], minutes)
}

/// `s` is the summary line of group `g`.
pub open spec fn summarizes(g: Group, s: TestCaseSummary) -> bool {
    let failed = exists|k: int| 0 <= k < g.jobs@.len() && failed_spec(#[trigger] g.jobs@[k]);
    &&& s.name@ == g.name@
    &&& s.passing@ == (if failed { "yes"@ } else { "no"@ })
    &&& s.passing_color@ == (if failed { "#98FB98"@ } else { "#FFCCCB"@ })
}

/// The test report: for each group, in order, its summary line and its rows
/// with the difference `diffs` holds for it; and the rows of the reference
/// jobs, with no name and no difference.
pub fn test_results<F: Fn(i64) -> String>(
    groups: Vec<Group>,
    diffs: Vec<String>,
    reference: &Vec<Job>,
    minutes: &F,
) -> (r: Results)
    requires
        diffs@.len() == groups@.len(),
        forall|k: int, m: int|
            0 <= k < groups@.len() && 0 <= m < groups@[k].jobs@.len() ==> (#[trigger] groups@[k].jobs@[m]).wf(),
        forall|k: int| 0 <= k < reference@.len() ==> (#[trigger] reference@[k]).wf(),
        forall|x: i64| minutes.requires((x,)),
    ensures
        r.summary@.len() == groups@.len(),
        r.details@.len() == groups@.len(),
        forall|k: int| 0 <= k < groups@.len() ==> summarizes(groups@[k], #[trigger] r.summary@[k]),
        forall|k: int|
            0 <= k < groups@.len() ==> {
                &&& (#[trigger] r.details@[k]).name@ == groups@[k].name@
                &&& r.details@[k].diff@ == diffs@[k]@
                &&& rows_match(groups@[k].jobs@, r.details@[k].rows@, minutes)
            },
        r.correct.name@ == Seq::<char>::empty(),
        r.correct.diff@ == Seq::<char>::empty(),
        rows_match(reference@, r.correct.rows@, minutes),
{
    let ghost gs = groups@;
    let ghost ds = diffs@;
    let mut groups = groups;
    let mut diffs = diffs;
    let mut summary: Vec<TestCaseSummary> = Vec::new();
    let mut details: Vec<TestCaseDetail> = Vec::new();
    let ghost mut i: int = 0;
    proof {
        assert(gs.subrange(0, gs.len() as int) =~= groups@);
        assert(ds.subrange(0, ds.len() as int) =~= diffs@);
    }
    while groups.len() > 0
        invariant
            ds.len() == gs.len(),
            0 <= i <= gs.len(),
            groups@ == gs.subrange(i, gs.len() as int),
            diffs@ == ds.subrange(i, ds.len() as int),
            summary@.len() == i,
            details@.len() == i,
            forall|k: int, m: int|
                0 <= k < gs.len() && 0 <= m < gs[k].jobs@.len() ==> (#[trigger] gs[k].jobs@[m]).wf(),
            forall|x: i64| minutes.requires((x,)),
            forall|k: int| 0 <= k < i ==> summarizes(gs[k], #[trigger] summary@[k]),
            forall|k: int|
                0 <= k < i ==> {
                    &&& (#[trigger] details@[k]).name@ == gs[k].name@
                    &&& details@[k].diff@ == ds[k]@
                    &&& rows_match(gs[k].jobs@, details@[k].rows@, minutes)
                },
        decreases groups@.len(),
    {
        let g = groups.remove(0);
        let diff = diffs.remove(0);
        proof {
            assert(g == gs[i]);
            assert(diff == ds[i]);
            assert forall|m: int| 0 <= m < g.jobs@.len() implies (#[trigger] g.jobs@[m]).wf() by {
                assert(gs[i].jobs@[m].wf());
            }
        }
        let failed = has_failed_spec(&g.jobs);
        let rows = rows_of(&g.jobs, minutes);
        summary.push(test_case_summary(&g.name, failed));
        details.push(TestCaseDetail { name: g.name, rows, diff });
        proof {
            i = i + 1;
            assert(groups@ =~= gs.subrange(i, gs.len() as int));
            assert(diffs@ =~= ds.subrange(i, ds.len() as int));
        }
    }
    let correct = TestCaseDetail { name: e(), rows: rows_of(reference, minutes), diff: e() };
    Results { correct, summary, details }
}

/// The groups of the test report: the test jobs of `jobs`, which are sorted by
/// name then request time, split by name. Each name has one group, and the
/// groups come by increasing name.
pub fn test_groups(jobs: &Vec<Job>, cutoff: Timestamp, prefix: &str) -> (groups: Vec<Group>)
    requires
        forall|k: int| 0 <= k < jobs@.len() ==> (#[trigger] jobs@[k]).request_dt is Some,
        sorted_by(JobOrder::NameThenRequestTime, jobs@),
    ensures
        is_grouping(jobs@.filter(|j: Job| is_test_job(j, cutoff, prefix@)), groups@),
        forall|k: int, l: int|
            0 <= k < l < groups@.len() ==> crate::text::lex_lt(
                #[trigger] groups@[k].name@,
                #[trigger] groups@[l].name@,
            ),
{
    let selected = select_test_jobs(jobs, cutoff, prefix);
    let ghost sel = selected@;
    let groups = group_by_name(selected);
    proof {
        lemma_sorted_grouping_names_increase(sel, groups@);
    }
    groups
}

/// A benchmark's summary line reads `yes`, in green, exactly when one of its
/// runs is over without having proved the specification; else `no`, in red.
pub proof fn lemma_summary_marks_unproved(g: Group, s: TestCaseSummary)
    requires
        summarizes(g, s),
    ensures
        (s.passing@ == "yes"@ && s.passing_color@ == "#98FB98"@) <==> exists|k: int|
            0 <= k < g.jobs@.len() && (#[trigger] g.jobs@[k]).completed_dt is Some && g.jobs@[k].proved
                != Some(true),
        (s.passing@ == "no"@ && s.passing_color@ == "#FFCCCB"@) <==> !exists|k: int|
            0 <= k < g.jobs@.len() && (#[trigger] g.jobs@[k]).completed_dt is Some && g.jobs@[k].proved
                != Some(true),
{
    reveal_strlit("yes");
    reveal_strlit("no");
    assert forall|k: int| 0 <= k < g.jobs@.len() implies failed_spec(#[trigger] g.jobs@[k]) == ((
    g.jobs@[k]).completed_dt is Some && g.jobs@[k].proved != Some(true)) by {
        lemma_failed_spec_meaning(g.jobs@[k]);
    }
    assert("yes"@ != "no"@) by {
        assert("yes"@[0] != "no"@[0]);
    }
}

} // verus!
