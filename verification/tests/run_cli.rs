use turbo_test::cli::{configure, parse_args, parse_count, parse_shard, shard_files, worker_count, CovFlag};
use turbo_test::coverage::{reporters, set_reporters, Coverage};
use turbo_test::outcome::{
    exit_code, first_attempt, has_fail, json_summary, looks_transient, next_run, record_retry,
    result_line, run_totals, score, summarize, NextRun, RunKind, TestReport,
};

fn strings(v: &[&str]) -> Vec<String> {
    v.iter().map(|s| s.to_string()).collect()
}

fn report(passed: u32, failed: u32, failures: &[&str]) -> TestReport {
    TestReport { passed, failed, failures: strings(failures) }
}

#[test]
fn counts_parse_like_usize() {
    assert_eq!(parse_count("8"), Some(8));
    assert_eq!(parse_count("+3"), Some(3));
    assert_eq!(parse_count("007"), Some(7));
    assert_eq!(parse_count("-1"), None);
    assert_eq!(parse_count(""), None);
    assert_eq!(parse_count("+"), None);
    assert_eq!(parse_count("12a"), None);
    assert_eq!(parse_count(" 4"), None);
    assert_eq!(parse_count("99999999999999999999999"), None);
}

#[test]
fn shard_values() {
    assert_eq!(parse_shard("2/3"), Some((2, 3)));
    assert_eq!(parse_shard("2"), None);
    assert_eq!(parse_shard("a/3"), None);
    assert_eq!(parse_shard("1/2/3"), None);
    assert_eq!(parse_shard("/3"), None);
}

#[test]
fn shard_partition_by_index() {
    let files = strings(&["a", "b", "c", "d", "e"]);
    assert_eq!(shard_files(files.clone(), Some((2, 2))), strings(&["b", "d"]));
    assert_eq!(shard_files(files.clone(), Some((1, 2))), strings(&["a", "c", "e"]));
    assert_eq!(shard_files(files.clone(), Some((3, 3))), strings(&["c"]));
    // Out-of-range shards leave every file in.
    assert_eq!(shard_files(files.clone(), Some((3, 2))), files);
    assert_eq!(shard_files(files.clone(), Some((0, 1))), files);
    assert_eq!(shard_files(files.clone(), None), files);
}

#[test]
fn shards_cover_every_file_once() {
    let files = strings(&["a", "b", "c", "d", "e", "f", "g"]);
    let mut all: Vec<String> = Vec::new();
    for i in 1..=3 {
        all.extend(shard_files(files.clone(), Some((i, 3))));
    }
    all.sort();
    assert_eq!(all, files);
}

#[test]
fn workers_bounded_by_files() {
    assert_eq!(worker_count(8, 3), 3);
    assert_eq!(worker_count(2, 10), 2);
    assert_eq!(worker_count(4, 0), 1);
    assert_eq!(worker_count(0, 5), 1);
}

#[test]
fn flags_and_files() {
    let args = strings(&[
        "--jobs", "3", "a.test.ts", "--silent", "--shard", "1/2", "--reporter", "json", "-t", "adds",
        "-u", "--coverage-thresholds", "lines=90", "b.test.ts",
    ]);
    let c = parse_args(&args, 8);
    assert_eq!(c.files, strings(&["a.test.ts", "b.test.ts"]));
    assert_eq!(c.jobs, 3);
    assert_eq!(c.shard, Some((1, 2)));
    assert!(c.json);
    assert_eq!(c.name_pattern.as_deref(), Some("adds"));
    assert!(c.update);
    assert_eq!(c.unsupported, strings(&["--silent"]));
    assert_eq!(c.coverage.len(), 2);
    assert!(matches!(c.coverage[0], CovFlag::Enable));
    assert!(matches!(&c.coverage[1], CovFlag::Thresholds(t) if t == "lines=90"));
}

#[test]
fn bad_values_keep_earlier_settings() {
    let c = parse_args(&strings(&["-j", "x", "--shard", "2/4", "--shard", "oops", "t.ts"]), 6);
    assert_eq!(c.jobs, 6);
    assert_eq!(c.shard, Some((2, 4)));
    // The bad values were consumed as values, not taken for files.
    assert_eq!(c.files, strings(&["t.ts"]));
    let c = parse_args(&strings(&["--reporter", "text", "t.ts", "--jobs"]), 2);
    assert!(!c.json);
    assert_eq!(c.jobs, 2);
    assert_eq!(c.files, strings(&["t.ts"]));
}

#[test]
fn coverage_flags_apply_in_order() {
    let c = parse_args(
        &strings(&[
            "--coverage-dir", "out", "--coverage-per-file", "--coverage-reporter", "LCOV, text",
            "--coverage-include", "src/**", "--coverage-exclude", "src/gen/**,{a,b}.ts",
        ]),
        1,
    );
    assert!(c.files.is_empty());
    let mut cov = Coverage::new();
    configure(&mut cov, &c.coverage);
    assert!(cov.enabled);
    assert_eq!(cov.out_dir.as_deref(), Some("out"));
    assert!(cov.per_file);
    assert_eq!(reporters(&cov), strings(&["lcov", "text"]));
    assert_eq!(cov.include_globs, strings(&["src/**"]));
    assert_eq!(cov.exclude_globs, strings(&["src/gen/**", "{a,b}.ts"]));
}

#[test]
fn report_ok_needs_a_pass() {
    assert!(report(2, 0, &[]).ok());
    assert!(!report(0, 0, &[]).ok());
    assert!(!report(2, 1, &["x"]).ok());
}

#[test]
fn transient_results() {
    assert!(looks_transient(&Ok(report(0, 3, &["a", "b", "c"]))));
    assert!(looks_transient(&Ok(report(4, 1, &["ReferenceError: document is not defined"]))));
    assert!(!looks_transient(&Ok(report(4, 1, &["expected 1 to be 2"]))));
    assert!(!looks_transient(&Ok(report(4, 1, &["foo is not defined"]))));
    assert!(looks_transient(&Err("boom".to_string())));
    assert!(!looks_transient(&Ok(report(0, 0, &[]))));
}

#[test]
fn scores_and_failures() {
    assert_eq!(score(&Ok(report(3, 2, &["a", "b"]))), 2998);
    assert_eq!(score(&Err("x".to_string())), i64::MIN);
    assert!(has_fail(&Ok(report(0, 0, &[]))));
    assert!(has_fail(&Ok(report(5, 1, &["a"]))));
    assert!(!has_fail(&Ok(report(5, 0, &[]))));
}

#[test]
fn retry_policy() {
    let a = first_attempt(RunKind::Normal, Ok(report(0, 2, &["a", "b"])));
    assert!(next_run(&a, false) == NextRun::Again);
    let a = record_retry(a, Ok(report(2, 0, &[])));
    assert_eq!(a.retries, 1);
    assert_eq!(a.best.as_ref().unwrap().passed, 2);
    assert!(next_run(&a, true) == NextRun::Done);
    // A worse rerun is dropped.
    let a = first_attempt(RunKind::Normal, Err("load".to_string()));
    let a = record_retry(a, Ok(report(0, 1, &["x"])));
    let a = record_retry(a, Err("again".to_string()));
    assert_eq!(a.retries, 2);
    assert!(a.best.is_ok());
    // Two reruns used: a reused run with a failure goes fresh, a plain run stops.
    assert!(next_run(&a, true) == NextRun::Fresh);
    assert!(next_run(&a, false) == NextRun::Done);
    let f = first_attempt(RunKind::Fresh, Ok(report(1, 1, &["real"])));
    assert!(next_run(&f, true) == NextRun::Done);
}

#[test]
fn result_lines() {
    let ok = result_line("a.test.ts", &Ok(report(3, 0, &[])));
    assert_eq!(ok, "PASS  a.test.ts  (3 passed, 0 failed)");
    let bad = result_line("b.test.ts", &Ok(report(1, 2, &["x > y", "z"])));
    assert_eq!(bad, "FAIL  b.test.ts  (1 passed, 2 failed)\n        ✗ x > y\n        ✗ z");
    let none = result_line("c.test.ts", &Ok(report(0, 0, &[])));
    assert_eq!(none, "FAIL  c.test.ts  (0 passed, 0 failed)");
    let err = result_line("d.test.ts", &Err("SyntaxError".to_string()));
    assert_eq!(err, "ERROR d.test.ts  (SyntaxError)");
}

#[test]
fn totals_and_exit() {
    let rs = vec![
        summarize("a".to_string(), &Ok(report(3, 0, &[]))),
        summarize("b".to_string(), &Ok(report(1, 2, &["x", "y"]))),
        summarize("c".to_string(), &Err("e".to_string())),
    ];
    assert_eq!(run_totals(&rs), (4, 2, 1));
    assert_eq!(exit_code(0, 0, true), 0);
    assert_eq!(exit_code(2, 0, true), 1);
    assert_eq!(exit_code(0, 1, true), 1);
    assert_eq!(exit_code(0, 0, false), 1);
}

#[test]
fn json_run_summary() {
    let rs = vec![
        summarize("dir\\a \"q\".ts".to_string(), &Ok(report(3, 0, &[]))),
        summarize("b.ts".to_string(), &Ok(report(1, 2, &["x", "y"]))),
        summarize("c.ts".to_string(), &Err("e".to_string())),
    ];
    let s = json_summary(3, &rs);
    assert_eq!(
        s,
        "{\"numTotalTestSuites\":3,\"numTotalTests\":6,\"numPassedTests\":4,\"numFailedTests\":2,\
\"success\":false,\"testResults\":[\
{\"name\":\"dir\\\\a \\\"q\\\".ts\",\"status\":\"passed\",\"numPassingTests\":3,\"numFailingTests\":0},\
{\"name\":\"b.ts\",\"status\":\"failed\",\"numPassingTests\":1,\"numFailingTests\":2},\
{\"name\":\"c.ts\",\"status\":\"error\",\"numPassingTests\":0,\"numFailingTests\":0}]}"
    );
    let ok = vec![summarize("a".to_string(), &Ok(report(1, 0, &[])))];
    assert_eq!(
        json_summary(1, &ok),
        "{\"numTotalTestSuites\":1,\"numTotalTests\":1,\"numPassedTests\":1,\"numFailedTests\":0,\
\"success\":true,\"testResults\":[{\"name\":\"a\",\"status\":\"passed\",\"numPassingTests\":1,\"numFailingTests\":0}]}"
    );
    assert_eq!(
        json_summary(0, &[]),
        "{\"numTotalTestSuites\":0,\"numTotalTests\":0,\"numPassedTests\":0,\"numFailedTests\":0,\
\"success\":true,\"testResults\":[]}"
    );
}

#[test]
fn reuse_failure_is_settled_fresh() {
    // A real (non-transient) failure under reuse goes straight to a fresh isolate.
    let a = first_attempt(RunKind::Normal, Ok(report(5, 1, &["expected 1 to be 2"])));
    assert!(next_run(&a, true) == NextRun::Fresh);
    assert!(next_run(&a, false) == NextRun::Done);
    // The fresh result is what is kept, even when it fails too.
    let f = first_attempt(RunKind::Fresh, Ok(report(5, 1, &["expected 1 to be 2"])));
    assert!(next_run(&f, true) == NextRun::Done);
    assert_eq!(f.best.unwrap().failed, 1);
}

#[test]
fn coverage_stays_enabled_once_on() {
    let mut cov = Coverage::new();
    assert!(!cov.enabled);
    configure(&mut cov, &[CovFlag::Enable]);
    assert!(cov.enabled);
    configure(
        &mut cov,
        &[CovFlag::PerFile, CovFlag::OutDir("o".to_string()), CovFlag::Include("src/**".to_string()), CovFlag::Enable],
    );
    assert!(cov.enabled);
    assert!(cov.per_file);
}

#[test]
fn reporters_default_then_last_named_list() {
    let mut cov = Coverage::new();
    assert_eq!(reporters(&cov), strings(&["lcov", "json-summary", "text"]));
    set_reporters(&mut cov, " , ");
    assert_eq!(reporters(&cov), strings(&["lcov", "json-summary", "text"]));
    set_reporters(&mut cov, "LCOV, Html");
    assert_eq!(reporters(&cov), strings(&["lcov", "html"]));
    configure(&mut cov, &[CovFlag::Reporters("text".to_string()), CovFlag::Reporters(" ,".to_string())]);
    assert_eq!(reporters(&cov), strings(&["text"]));
}
