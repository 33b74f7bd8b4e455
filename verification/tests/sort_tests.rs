use kworker::job::Job;
use kworker::order::{sort_jobs, JobOrder};

pub fn job(id: i32, name: &str, request_dt: Option<i64>) -> Job {
    Job {
        id,
        name: name.to_string(),
        request_dt,
        s3_bucket: None,
        s3_key: None,
        spec_filename: String::from("spec.k"),
        kprove: String::from("k"),
        semantics: String::from("evm-semantics"),
        timeout_sec: Some(1800),
        processing_dt: None,
        output_log_s3_key: None,
        error_log_s3_key: None,
        status_code: None,
        timed_out: None,
        proved: None,
        completed_dt: None,
    }
}

fn ids(jobs: &[Job]) -> Vec<i32> {
    jobs.iter().map(|j| j.id).collect()
}

#[test]
fn sort_by_request_time_is_stable() {
    let jobs = vec![
        job(1, "a", Some(30)),
        job(2, "b", None),
        job(3, "c", Some(10)),
        job(4, "d", Some(30)),
        job(5, "e", None),
        job(6, "f", Some(20)),
    ];
    let sorted = sort_jobs(jobs, JobOrder::RequestTime);
    assert_eq!(ids(&sorted), vec![2, 5, 3, 6, 1, 4]);
}

#[test]
fn sort_by_name_then_time() {
    let jobs = vec![
        job(1, "TEST-b", Some(5)),
        job(2, "TEST-a", Some(9)),
        job(3, "TEST-b", Some(1)),
        job(4, "TEST-a", Some(9)),
        job(5, "TEST-a", Some(2)),
    ];
    let sorted = sort_jobs(jobs, JobOrder::NameThenRequestTime);
    assert_eq!(ids(&sorted), vec![5, 2, 4, 3, 1]);
}

#[test]
fn sort_of_nothing() {
    assert!(sort_jobs(Vec::new(), JobOrder::RequestTime).is_empty());
}

#[test]
fn sort_agrees_with_std_stable_sort() {
    let mut jobs = Vec::new();
    for i in 0..40 {
        let t = if i % 7 == 0 { None } else { Some(((i * 13) % 5) as i64) };
        jobs.push(job(i, if i % 3 == 0 { "x" } else { "y" }, t));
    }
    let mut expected = jobs.clone();
    expected.sort_by_key(|j| j.request_dt);
    let sorted = sort_jobs(jobs.clone(), JobOrder::RequestTime);
    assert_eq!(ids(&sorted), ids(&expected));
    let mut expected2 = jobs.clone();
    expected2.sort_by(|a, b| a.name.cmp(&b.name).then(a.request_dt.cmp(&b.request_dt)));
    let sorted2 = sort_jobs(jobs, JobOrder::NameThenRequestTime);
    assert_eq!(ids(&sorted2), ids(&expected2));
}
