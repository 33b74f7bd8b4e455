use chrono::{DateTime, Local, Utc};
use kworker::dev::{get_response, is_spec_file, new_sandbox, sandbox_with};
use kworker::job::Job;
use kworker::order::{sort_jobs, JobOrder};
use kworker::report::{
    group_by_name, has_failed_spec, monitor_rows, select_reference_jobs, select_test_jobs,
    test_case_summary, test_groups, test_report_cutoff, test_results, REFERENCE_BENCHMARK,
    REFERENCE_MIN_ID, TEST_PREFIX,
};
use kworker::view::{e, row};

fn minutes(x: i64) -> String {
    format!("{:.1}", x as f64 / 60.)
}

fn job(id: i32, name: &str, request_dt: Option<i64>) -> Job {
    Job {
        id,
        name: name.to_string(),
        request_dt,
        s3_bucket: Some(String::from("kjob")),
        s3_key: Some(String::from("key")),
        spec_filename: String::from("fn-execute-spec.k"),
        kprove: String::from("k"),
        semantics: String::from("evm-semantics"),
        timeout_sec: Some(1800),
        processing_dt: None,
        output_log_s3_key: None,
        error_log_s3_key: None,
        status_code: None,
        timed_out: None,
        proved: None,
        completed_dt: None,
    }
}

fn completed(mut j: Job, proved: Option<bool>, timed_out: Option<bool>) -> Job {
    j.processing_dt = Some(1_565_308_800_000_000);
    j.completed_dt = Some(1_565_308_890_500_000);
    j.proved = proved;
    j.timed_out = timed_out;
    j.status_code = Some(0);
    j.output_log_s3_key = Some(String::from("key/generated/out.txt"));
    j.error_log_s3_key = Some(String::from("key/generated/err.txt"));
    j
}

#[test]
fn empty_string() {
    assert_eq!(e(), "");
}

#[test]
fn row_of_incomplete_job() {
    let r = row(&job(3, "bench", None), &minutes);
    assert_eq!(r.id, 3);
    assert_eq!(r.result, "incomplete");
    assert_eq!(r.result_color, "#FFD300");
    assert_eq!(r.request_dt, "");
    assert_eq!(r.completed_dt, "");
    assert_eq!(r.processing_secs, "");
    assert_eq!(r.processing_mins, "");
    assert_eq!(r.status_code, "");
    assert_eq!(r.out_url, "");
    assert_eq!(r.benchmark_name, "bench");
    assert_eq!(r.spec_name, "fn-execute-spec.k");
}

#[test]
fn row_outcomes() {
    let base = || job(1, "bench", Some(1_565_308_700_000_000));
    let r = row(&completed(base(), Some(true), None), &minutes);
    assert_eq!((r.result.as_str(), r.result_color.as_str()), ("proved true", "#98FB98"));
    let r = row(&completed(base(), Some(false), Some(true)), &minutes);
    assert_eq!((r.result.as_str(), r.result_color.as_str()), ("proved false", "#FFCCCB"));
    let r = row(&completed(base(), None, Some(true)), &minutes);
    assert_eq!((r.result.as_str(), r.result_color.as_str()), ("timeout", "#FFCCCB"));
    let r = row(&completed(base(), None, Some(false)), &minutes);
    assert_eq!((r.result.as_str(), r.result_color.as_str()), ("error", "#FFCCCB"));
    let r = row(&completed(base(), None, None), &minutes);
    assert_eq!(r.result, "error");
}

#[test]
fn row_of_completed_job() {
    let j = completed(job(8, "bench", Some(1_565_308_700_000_000)), Some(true), None);
    let r = row(&j, &minutes);
    assert_eq!(r.processing_secs, "90");
    assert_eq!(r.processing_mins, "1.5");
    assert_eq!(r.status_code, "0");
    assert_eq!(r.out_url, "http://kjob.s3.amazonaws.com/key/generated/out.txt");
    assert_eq!(r.err_url, "http://kjob.s3.amazonaws.com/key/generated/err.txt");
    for t in [&r.request_dt, &r.processed_dt, &r.completed_dt] {
        assert_eq!(t.len(), 19);
        assert!(t.starts_with("2019-08-0"));
    }
}

#[test]
fn monitor_rows_by_request_time() {
    let jobs = vec![job(1, "a", Some(50)), job(2, "b", None), job(3, "c", Some(10))];
    let rows = monitor_rows(jobs, &minutes);
    let ids: Vec<i32> = rows.iter().map(|r| r.id).collect();
    assert_eq!(ids, vec![2, 3, 1]);
}

#[test]
fn test_report_selection_and_groups() {
    let cutoff = test_report_cutoff().unwrap();
    assert_eq!(cutoff, 1_565_308_800_000_000);
    let jobs = vec![
        job(500, "TEST-b.sol", Some(cutoff + 5)),
        job(501, "TEST-a.sol", Some(cutoff - 1)),
        job(502, "TEST-a.sol", Some(cutoff + 7)),
        job(503, "multisig13", Some(cutoff + 1)),
        job(553, "multisig13", Some(cutoff + 2)),
        job(554, "TEST-a.sol", Some(cutoff)),
        job(555, "other", Some(cutoff + 9)),
    ];
    let sorted = sort_jobs(jobs, JobOrder::NameThenRequestTime);
    let tests = select_test_jobs(&sorted, cutoff, TEST_PREFIX);
    let ids: Vec<i32> = tests.iter().map(|j| j.id).collect();
    assert_eq!(ids, vec![554, 502, 500]);
    let groups = group_by_name(tests);
    assert_eq!(groups.len(), 2);
    assert_eq!(groups[0].name, "TEST-a.sol");
    assert_eq!(groups[0].jobs.iter().map(|j| j.id).collect::<Vec<_>>(), vec![554, 502]);
    assert_eq!(groups[1].name, "TEST-b.sol");
    let reference =
        select_reference_jobs(&sorted, cutoff, REFERENCE_BENCHMARK, REFERENCE_MIN_ID);
    assert_eq!(reference.iter().map(|j| j.id).collect::<Vec<_>>(), vec![553]);
}

#[test]
fn grouping_keeps_runs_apart() {
    let jobs = vec![job(1, "x", None), job(2, "y", None), job(3, "x", None)];
    let groups = group_by_name(jobs);
    assert_eq!(groups.len(), 3);
    assert!(group_by_name(Vec::new()).is_empty());
}

#[test]
fn failed_spec_and_summary() {
    let ok = completed(job(1, "t", Some(0)), Some(true), None);
    let pending = job(2, "t", Some(0));
    assert!(!has_failed_spec(&vec![ok, pending]));
    let refuted = completed(job(3, "t", Some(0)), Some(false), None);
    let crashed = completed(job(4, "t", Some(0)), None, None);
    assert!(has_failed_spec(&vec![refuted]));
    assert!(has_failed_spec(&vec![crashed]));
    let s = test_case_summary(&String::from("TEST-a.sol"), true);
    assert_eq!((s.passing.as_str(), s.passing_color.as_str()), ("yes", "#98FB98"));
    let s = test_case_summary(&String::from("TEST-a.sol"), false);
    assert_eq!((s.passing.as_str(), s.passing_color.as_str()), ("no", "#FFCCCB"));
    assert_eq!(s.name, "TEST-a.sol");
}

#[test]
fn dev_server_pieces() {
    let jobs = vec![job(1, "program", None), job(2, "program", None)];
    let resp = get_response(&jobs, &minutes);
    assert_eq!(resp.jobs.len(), 2);
    assert_eq!(resp.jobs[1].id, 2);
    assert!(is_spec_file("fn-execute-spec.k"));
    assert!(!is_spec_file("spec.ini"));
    let s = sandbox_with(&String::from("abc"));
    assert_eq!(s.tmp_dir, "/tmp/kdev-abc");
    assert_eq!(s.sandbox_dir, "/tmp/kdev-abc/sandbox");
    assert_eq!(s.program_dir, "/tmp/kdev-abc/sandbox/program");
    assert_eq!(s.generated_dir, "/tmp/kdev-abc/sandbox/program/generated");
    assert_eq!(s.program_file, "/tmp/kdev-abc/sandbox/program/program.sol");
    assert_eq!(s.spec_file, "/tmp/kdev-abc/sandbox/program/spec.ini");
    let fresh = new_sandbox();
    assert!(fresh.tmp_dir.starts_with("/tmp/kdev-"));
    assert_eq!(fresh.tmp_dir.len(), "/tmp/kdev-".len() + 36);
}

#[test]
fn timestamp_range_is_chronos() {
    assert_eq!(DateTime::<Utc>::MIN_UTC.timestamp_micros(), kworker::job::TIMESTAMP_MIN);
    assert_eq!(DateTime::<Utc>::MAX_UTC.timestamp_micros(), kworker::job::TIMESTAMP_MAX);
}

#[test]
fn row_at_the_ends_of_time() {
    let mut j = job(1, "bench", Some(kworker::job::TIMESTAMP_MIN));
    j.processing_dt = Some(kworker::job::TIMESTAMP_MIN);
    j.completed_dt = Some(kworker::job::TIMESTAMP_MAX);
    let r = row(&j, &minutes);
    assert!(r.request_dt.len() >= 19);
    assert!(r.completed_dt.len() >= 19);
    assert_eq!(r.processing_secs, "16544868105599");
}

#[test]
fn time_fields_render_the_jobs_own_times() {
    let t = 1_565_308_890_500_000i64;
    let mut j = job(1, "bench", Some(t - 7_000_000_000));
    j.processing_dt = Some(t - 3_000_000_000);
    j.completed_dt = Some(t);
    let r = row(&j, &minutes);
    let local = |m: i64| {
        DateTime::<Utc>::from_timestamp_micros(m)
            .unwrap()
            .with_timezone(&Local)
            .format("%Y-%m-%d %H:%M:%S")
            .to_string()
    };
    assert_eq!(r.completed_dt, local(t));
    assert_eq!(r.request_dt, local(t - 7_000_000_000));
    assert_eq!(r.processed_dt, local(t - 3_000_000_000));
    assert_ne!(r.request_dt, r.completed_dt);
}

#[test]
fn test_report_assembly() {
    let cutoff = test_report_cutoff().unwrap();
    let jobs = vec![
        completed(job(1, "TEST-a.sol", Some(cutoff + 1)), Some(false), None),
        job(2, "TEST-a.sol", Some(cutoff + 2)),
        completed(job(3, "TEST-b.sol", Some(cutoff + 3)), Some(true), None),
        job(4, "x", Some(cutoff + 4)),
        job(600, "multisig13", Some(cutoff + 5)),
    ];
    let sorted = sort_jobs(jobs, JobOrder::NameThenRequestTime);
    let groups = test_groups(&sorted, cutoff, TEST_PREFIX);
    assert_eq!(groups.iter().map(|g| g.name.as_str()).collect::<Vec<_>>(), vec!["TEST-a.sol", "TEST-b.sol"]);
    let reference = select_reference_jobs(&sorted, cutoff, REFERENCE_BENCHMARK, REFERENCE_MIN_ID);
    let results = test_results(
        groups,
        vec![String::from("diff-a"), String::from("diff-b")],
        &reference,
        &minutes,
    );
    assert_eq!(results.summary.len(), 2);
    assert_eq!(results.summary[0].name, "TEST-a.sol");
    assert_eq!(results.summary[0].passing, "yes");
    assert_eq!(results.summary[1].passing, "no");
    assert_eq!(results.summary[1].passing_color, "#FFCCCB");
    assert_eq!(results.details[0].diff, "diff-a");
    assert_eq!(results.details[0].rows.iter().map(|r| r.id).collect::<Vec<_>>(), vec![1, 2]);
    assert_eq!(results.details[1].name, "TEST-b.sol");
    assert_eq!(results.correct.name, "");
    assert_eq!(results.correct.diff, "");
    assert_eq!(results.correct.rows.iter().map(|r| r.id).collect::<Vec<_>>(), vec![600]);
}
