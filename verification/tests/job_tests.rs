use kworker::ids::{benchmark_key, benchmark_key_with};
use kworker::job::{
    get_job, jobs_query, k_path, log_key, next_action, pop_job, semantics_path, Job, WorkerAction,
};
use kworker::s3::{object_keys, s3_url, s3_url_opt};

fn job(id: i32, processing_dt: Option<i64>) -> Job {
    Job {
        id,
        name: format!("bench-{}", id),
        request_dt: Some(1_000_000),
        s3_bucket: Some(String::from("kjob")),
        s3_key: Some(format!("bench-{}-key", id)),
        spec_filename: String::from("fn-execute-spec.k"),
        kprove: String::from("k"),
        semantics: String::from("evm-semantics"),
        timeout_sec: Some(1800),
        processing_dt,
        output_log_s3_key: None,
        error_log_s3_key: None,
        status_code: None,
        timed_out: None,
        proved: None,
        completed_dt: None,
    }
}

#[test]
fn pop_job_takes_first_unprocessed() {
    let jobs = vec![job(4, Some(10)), job(7, None), job(9, None)];
    assert_eq!(pop_job(&jobs), Some(7));
}

#[test]
fn pop_job_on_started_queue() {
    let jobs = vec![job(4, Some(10)), job(7, Some(11))];
    assert_eq!(pop_job(&jobs), None);
    assert_eq!(pop_job(&Vec::new()), None);
}

#[test]
fn get_job_takes_first_row() {
    let j = get_job(vec![job(3, None), job(5, None)]);
    assert_eq!(j.id, 3);
}

#[test]
fn jobs_query_text() {
    assert_eq!(jobs_query(None), "SELECT * FROM job ");
    assert_eq!(jobs_query(Some(42)), "SELECT * FROM job where id=42");
    assert_eq!(jobs_query(Some(-3)), "SELECT * FROM job where id=-3");
}

#[test]
fn worker_sleeps_or_runs() {
    assert!(matches!(next_action(None), WorkerAction::Sleep { millis: 3000 }));
    assert!(matches!(next_action(Some(12)), WorkerAction::Run { job_id: 12 }));
}

#[test]
fn keys_and_paths() {
    assert_eq!(
        log_key(&String::from("bench-uuid"), &String::from("out.txt")),
        "bench-uuid/generated/out.txt"
    );
    assert_eq!(k_path(&String::from("/app"), &String::from("k")), "/app/k/k-distribution");
    assert_eq!(
        semantics_path(&String::from("/app"), &String::from("evm-semantics")),
        "/app/evm-semantics/.build/java"
    );
    assert_eq!(
        benchmark_key_with(&String::from("0-simple00"), &String::from("abc")),
        "0-simple00-abc"
    );
}

#[test]
fn benchmark_key_has_fresh_uuid() {
    let name = String::from("program");
    let a = benchmark_key(&name);
    let b = benchmark_key(&name);
    assert!(a.starts_with("program-"));
    let id = &a["program-".len()..];
    assert_eq!(id.len(), 36);
    for (i, c) in id.chars().enumerate() {
        if i == 8 || i == 13 || i == 18 || i == 23 {
            assert_eq!(c, '-');
        } else {
            assert!(c.is_ascii_hexdigit() && !c.is_ascii_uppercase());
        }
    }
    assert_ne!(a, b);
}

#[test]
fn processing_secs_round_toward_zero() {
    let mut j = job(1, Some(1_000_000));
    assert_eq!(j.get_processing_secs(), None);
    j.completed_dt = Some(91_999_999);
    assert_eq!(j.get_processing_secs(), Some(90));
    j.processing_dt = Some(3_500_000);
    j.completed_dt = Some(0);
    assert_eq!(j.get_processing_secs(), Some(-3));
}

#[test]
fn log_urls() {
    let mut j = job(1, None);
    assert_eq!(j.output_log_s3_url(), None);
    j.output_log_s3_key = Some(String::from("k/generated/out.txt"));
    assert_eq!(
        j.output_log_s3_url(),
        Some(String::from("http://kjob.s3.amazonaws.com/k/generated/out.txt"))
    );
    j.error_log_s3_key = Some(String::from("k/generated/err.txt"));
    j.s3_bucket = None;
    assert_eq!(j.error_log_s3_url(), None);
}

#[test]
fn s3_urls() {
    assert_eq!(
        s3_url(&String::from("kjob"), &String::from("a/b")),
        "http://kjob.s3.amazonaws.com/a/b"
    );
    assert_eq!(
        s3_url_opt(Some(String::from("b")), Some(String::from("k"))),
        Some(String::from("http://b.s3.amazonaws.com/k"))
    );
    assert_eq!(s3_url_opt(None, Some(String::from("k"))), None);
    assert_eq!(s3_url_opt(Some(String::from("b")), None), None);
}

#[test]
fn object_keys_skip_missing() {
    let keys = object_keys(vec![Some(String::from("a")), None, Some(String::from("b/c"))]);
    assert_eq!(keys, vec![String::from("a"), String::from("b/c")]);
}

#[test]
fn taken_job_is_not_handed_out_again() {
    let mut jobs = vec![job(4, Some(10)), job(7, None), job(9, None)];
    let a = pop_job(&jobs).unwrap();
    for j in jobs.iter_mut().filter(|j| j.id == a) {
        j.processing_dt = Some(20);
    }
    let b = pop_job(&jobs);
    assert_eq!(b, Some(9));
    for j in jobs.iter_mut().filter(|j| Some(j.id) == b) {
        j.processing_dt = Some(21);
    }
    assert_eq!(pop_job(&jobs), None);
    for j in jobs.iter_mut() {
        j.processing_dt = None;
    }
    assert_eq!(pop_job(&jobs), Some(4));
}
