use kworker::k::{class_path, k_result, kprove_args, proved_from_output};

fn lines(ls: &[&str]) -> Vec<String> {
    ls.iter().map(|s| s.to_string()).collect()
}

#[test]
fn verdict_from_output() {
    assert_eq!(proved_from_output(&lines(&["a", "  #True  ", "b"])), Some(true));
    assert_eq!(proved_from_output(&lines(&["false"])), Some(false));
    assert_eq!(proved_from_output(&lines(&["#True", "x", "\tfalse"])), Some(false));
    assert_eq!(proved_from_output(&lines(&["false", "#True"])), Some(true));
    assert_eq!(proved_from_output(&lines(&["#true", "False", "true"])), None);
    assert_eq!(proved_from_output(&Vec::new()), None);
}

#[test]
fn timed_out_when_no_exit_code() {
    let r = k_result(String::from("/b/out.txt"), String::from("/b/err.txt"), None, None);
    assert!(r.timed_out);
    assert_eq!(r.output_file_path, Some(String::from("/b/out.txt")));
    let r = k_result(String::from("o"), String::from("e"), Some(0), Some(true));
    assert!(!r.timed_out);
    assert_eq!(r.status_code, Some(0));
    assert_eq!(r.proved, Some(true));
}

#[test]
fn prover_command_line() {
    assert_eq!(class_path("/opt/k"), "/opt/k/target/release/k/lib/java/*");
    let args = kprove_args("CP", "SEM", "/b/evm.smt2", "/b/spec.k");
    assert_eq!(args.len(), 31);
    assert_eq!(args[0], "-Dfile.encoding=UTF-8");
    assert_eq!(args[7], "-cp");
    assert_eq!(args[8], "CP");
    assert_eq!(args[9], "org.kframework.main.Main");
    assert_eq!(args[14], "SEM");
    assert_eq!(args[18], "500");
    assert_eq!(args[28], "--smt-prelude");
    assert_eq!(args[29], "/b/evm.smt2");
    assert_eq!(args[30], "/b/spec.k");
}

