use turbo_test::launcher::{
    config_environment, coverage_on, extract_quoted, find_coverage_block, flag_takes_value,
    has_flag, inject_coverage_flags, inject_test_timeout, is_test_file, keep_discovered,
    parse_args, scan_braced, scan_number, scan_string_array, skip_ws, vitest_coverage,
    vitest_patterns, CoverageCfg,
};

fn chars(s: &str) -> Vec<char> {
    s.chars().collect()
}

fn strings(v: &[&str]) -> Vec<String> {
    v.iter().map(|s| s.to_string()).collect()
}

#[test]
fn test_file_names() {
    assert!(is_test_file("a.test.ts"));
    assert!(is_test_file("b.spec.tsx"));
    assert!(is_test_file("x.y.test.mts"));
    assert!(!is_test_file("a.test.json"));
    assert!(!is_test_file("a.ts"));
    assert!(!is_test_file("test.ts"));
}

#[test]
fn whitespace_skipping() {
    assert_eq!(skip_ws(&chars("  \t\nx"), 0), 4);
    assert_eq!(skip_ws(&chars("x"), 0), 0);
    assert_eq!(skip_ws(&chars("  "), 1), 2);
}

#[test]
fn quoted_strings_in_order() {
    assert_eq!(extract_quoted(&chars(" 'a', \"b\", `c`, '' ")), strings(&["a", "b", "c"]));
    assert_eq!(extract_quoted(&chars("'open")), Vec::<String>::new());
}

#[test]
fn string_arrays_by_key() {
    let t = chars("test: { include: ['src/**/*.test.ts', \"x\"], exclude : [ ] }");
    assert_eq!(scan_string_array(&t, &chars("include")), Some(strings(&["src/**/*.test.ts", "x"])));
    assert_eq!(scan_string_array(&t, &chars("exclude")), Some(vec![]));
    assert_eq!(scan_string_array(&t, &chars("setupFiles")), None);
}

#[test]
fn environment_from_config() {
    assert_eq!(config_environment(&chars("test: { environment: 'JSDOM' }")), Some("jsdom".to_string()));
    assert_eq!(config_environment(&chars("environment: 'happy-dom',")), Some("happy-dom".to_string()));
    assert_eq!(config_environment(&chars("environment: env")), None);
}

#[test]
fn coverage_block_and_scans() {
    let t = chars("test: { coverage: 'x', coverage : { thresholds: { lines: 90, subBranches: 1, branches: 80.5 } } }");
    let at = find_coverage_block(&t).unwrap();
    assert_eq!(t[at..at + 8].iter().collect::<String>(), "coverage");
    assert!(at > 10);
    assert_eq!(
        scan_braced(&t, &chars("thresholds")).map(|v| v.iter().collect::<String>()),
        Some(" lines: 90, subBranches: 1, branches: 80.5 ".to_string())
    );
    assert_eq!(
        scan_number(&t, &chars("branches")).map(|v| v.iter().collect::<String>()),
        Some("80.5".to_string())
    );
    assert_eq!(scan_number(&t, &chars("functions")), None);
}

#[test]
fn threshold_numbers_are_digits_with_one_optional_fraction() {
    let num = |t: &str, k: &str| scan_number(&chars(t), &chars(k)).map(|v| v.iter().collect::<String>());
    assert_eq!(num("sub_branches: 5, branches: 80", "branches"), Some("80".to_string()));
    assert_eq!(num("x.lines: 7", "lines"), None);
    assert_eq!(num("lines: 1.2.3", "lines"), Some("1.2".to_string()));
    assert_eq!(num("lines: .5", "lines"), None);
    assert_eq!(num("lines: 7.", "lines"), Some("7".to_string()));
}

#[test]
fn test_patterns_stop_at_the_coverage_block() {
    let cfg = "export default { test: { include: ['src/**/*.test.ts'], coverage: { include: ['src/**'], exclude: ['**/*.test.ts'] } } }";
    assert_eq!(vitest_patterns(cfg), Some((strings(&["src/**/*.test.ts"]), vec![])));
    assert_eq!(vitest_patterns("export default { test: {} }"), None);
}

#[test]
fn coverage_settings_from_config() {
    let cfg = "test: { coverage: { include: ['src/**'], exclude: ['src/gen/**'], thresholds: { lines: 90, functions: 80 } } }";
    let c = vitest_coverage(cfg);
    assert_eq!(c.include_globs, strings(&["src/**"]));
    assert_eq!(c.exclude_globs, strings(&["src/gen/**"]));
    assert_eq!(c.thresholds, Some("lines=90,functions=80".to_string()));
    let flat = vitest_coverage("coverage: { lines: 70, statements: 60 }");
    assert_eq!(flat.thresholds, Some("lines=70,statements=60".to_string()));
    let none = vitest_coverage("test: {}");
    assert!(none.include_globs.is_empty() && none.thresholds.is_none());
}

#[test]
fn value_flags() {
    assert!(flag_takes_value("--coverage-dir"));
    assert!(flag_takes_value("-t"));
    assert!(!flag_takes_value("--coverage"));
}

#[test]
fn args_split_into_options_flags_and_files() {
    let p = parse_args(&strings(&[
        "run", "--config=vite.config.ts", "--changed", "--jobs", "4", "a.test.ts", "--no-isolate",
        "", "--coverage", "--environment", "jsdom", "--globals", "--passWithNoTests",
    ]));
    assert_eq!(p.opts.config, Some("vite.config.ts".to_string()));
    assert_eq!(p.opts.changed, Some("true".to_string()));
    assert_eq!(p.opts.isolate, Some(false));
    assert_eq!(p.opts.environment, Some("jsdom".to_string()));
    assert!(p.opts.pass_with_no_tests);
    assert_eq!(p.forward, strings(&["--jobs", "4", "--coverage"]));
    assert_eq!(p.files, strings(&["a.test.ts"]));
}

#[test]
fn changed_takes_an_optional_ref() {
    let p = parse_args(&strings(&["--changed", "main", "x.test.ts"]));
    assert_eq!(p.opts.changed, Some("main".to_string()));
    assert_eq!(p.files, strings(&["x.test.ts"]));
}

#[test]
fn flags_and_coverage_detection() {
    let f = strings(&["--coverage-thresholds=lines=1", "--jobs"]);
    assert!(has_flag(&f, "--coverage-thresholds"));
    assert!(!has_flag(&f, "--coverage-include"));
    assert!(coverage_on(&f));
    assert!(!coverage_on(&strings(&["--jobs", "2"])));
}

#[test]
fn config_coverage_is_injected_unless_passed() {
    let cfg = CoverageCfg {
        include_globs: strings(&["src/**/*.{ts,tsx}", "lib/**"]),
        exclude_globs: vec![],
        thresholds: Some("lines=90".to_string()),
    };
    let mut f = strings(&["--coverage"]);
    inject_coverage_flags(&mut f, &cfg);
    assert_eq!(
        f,
        strings(&[
            "--coverage", "--coverage-thresholds", "lines=90", "--coverage-include",
            "src/**/*.{ts,tsx},lib/**",
        ])
    );
    let mut g = strings(&["--coverage", "--coverage-threshold", "lines=10"]);
    inject_coverage_flags(&mut g, &cfg);
    assert_eq!(
        g,
        strings(&[
            "--coverage", "--coverage-threshold", "lines=10", "--coverage-include",
            "src/**/*.{ts,tsx},lib/**",
        ])
    );
}

#[test]
fn test_timeout_from_config() {
    let mut f = strings(&[]);
    inject_test_timeout(&mut f, "test: { testTimeout: 10000 }");
    assert_eq!(f, strings(&["--testTimeout", "10000"]));
    let mut g = strings(&["--testTimeout=1"]);
    inject_test_timeout(&mut g, "test: { testTimeout: 10000 }");
    assert_eq!(g, strings(&["--testTimeout=1"]));
}

#[test]
fn discovered_files_filtered_by_globs() {
    let inc = strings(&["src/**/*.test.ts"]);
    let exc = strings(&["src/slow/**"]);
    assert!(keep_discovered("src/a/b.test.ts", &inc, &exc));
    assert!(!keep_discovered("src/slow/b.test.ts", &inc, &exc));
    assert!(!keep_discovered("lib/b.test.ts", &inc, &exc));
}
