use base64::Engine;
use turbo_test::covdata::{
    branch_tally, covered_files, fn_tally, line_tally, record, record_branch, record_fn,
    record_stmt, stmt_tally, CoverageData,
};
use turbo_test::coverage::{
    add_exclude, add_include, byte_to_linecol, enable, enabled, is_ignored, mark_ignored, out_dir,
    passes_globs, reporters, scan_ignore_directive, set_out_dir, set_per_file, set_reporters,
    set_thresholds, split_globs, Coverage,
};
use turbo_test::decimal::{parse_decimal, Decimal};
use turbo_test::glob::glob_match;
use turbo_test::report::{build_rows, file_row, gate, select_files, Metric};
use turbo_test::sourcemap::{parse_mappings_full, vlq_decode};

fn chars(s: &str) -> Vec<char> {
    s.chars().collect()
}

#[test]
fn coverage_starts_off_and_turns_on() {
    let mut c = Coverage::new();
    assert!(!enabled(&c));
    enable(&mut c);
    assert!(enabled(&c));
}

#[test]
fn out_dir_defaults_under_cwd() {
    let mut c = Coverage::new();
    assert_eq!(out_dir(&c, "/work"), "/work/coverage");
    assert_eq!(out_dir(&c, "/work/"), "/work/coverage");
    set_out_dir(&mut c, "build/cov");
    assert_eq!(out_dir(&c, "/work"), "build/cov");
}

#[test]
fn thresholds_parse_any_subset_in_any_order() {
    let mut c = Coverage::new();
    set_thresholds(&mut c, "branches=80, lines=90,funcs=87.5,bogus=1,statements=x");
    let t = c.thresholds.unwrap();
    assert_eq!(t.lines, Some(Decimal { units: 90, scale: 0 }));
    assert_eq!(t.functions, Some(Decimal { units: 875, scale: 1 }));
    assert_eq!(t.branches, Some(Decimal { units: 80, scale: 0 }));
    assert_eq!(t.statements, None);
    set_thresholds(&mut c, "stmts=70");
    let t = c.thresholds.unwrap();
    assert_eq!(t.lines, Some(Decimal { units: 90, scale: 0 }));
    assert_eq!(t.statements, Some(Decimal { units: 70, scale: 0 }));
}

#[test]
fn reporters_default_and_override() {
    let mut c = Coverage::new();
    assert_eq!(reporters(&c), vec!["lcov", "json-summary", "text"]);
    set_reporters(&mut c, " , ");
    assert_eq!(reporters(&c), vec!["lcov", "json-summary", "text"]);
    set_reporters(&mut c, " LCOV , html,");
    assert_eq!(reporters(&c), vec!["lcov", "html"]);
}

#[test]
fn brace_globs_stay_whole_when_split() {
    assert_eq!(
        split_globs("src/**/*.{ts,tsx}, lib/*.js,,"),
        vec!["src/**/*.{ts,tsx}".to_string(), "lib/*.js".to_string()]
    );
}

#[test]
fn glob_matching_rules() {
    assert!(glob_match("src/**/*.{ts,tsx}", "src/a/b/c.tsx"));
    assert!(glob_match("src/**/*.{ts,tsx}", "src/c.ts"));
    assert!(!glob_match("src/**/*.{ts,tsx}", "src/c.js"));
    assert!(!glob_match("*.ts", "a/b.ts"));
    assert!(glob_match("a/?.ts", "a/b.ts"));
    assert!(glob_match("src/**", "src/x/y"));
}

#[test]
fn double_star_slash_matches_whole_segments_only() {
    assert!(!glob_match("**/x", "ax"));
    assert!(!glob_match("**/node_modules/**", "src/my_node_modules/a.ts"));
    assert!(glob_match("**/node_modules/**", "src/node_modules/a.ts"));
    assert!(glob_match("**/x", "a/x"));
    assert!(glob_match("**/x", "x"));
    assert!(glob_match("**/*.test.ts", "a/b/c.test.ts"));
}

#[test]
fn include_and_exclude_globs_select_files() {
    let mut c = Coverage::new();
    assert!(passes_globs(&c, "anything.ts"));
    add_include(&mut c, "src/**/*.{ts,tsx}");
    add_exclude(&mut c, "src/gen/**");
    assert!(passes_globs(&c, "src/a.ts"));
    assert!(!passes_globs(&c, "lib/a.ts"));
    assert!(!passes_globs(&c, "src/gen/x.ts"));
}

#[test]
fn ignore_directive_near_the_top() {
    let mut c = Coverage::new();
    scan_ignore_directive(&mut c, "/p/a.ts", "/* turbo-test-coverage-ignore-file */\nexport {}\n");
    scan_ignore_directive(&mut c, "/p/b.ts", "export const x = 1;\n");
    assert!(is_ignored(&c, "/p/a.ts"));
    assert!(!is_ignored(&c, "/p/b.ts"));
    mark_ignored(&mut c, "/p/b.ts");
    assert!(is_ignored(&c, "/p/b.ts"));
}

#[test]
fn records_merge_by_maximum() {
    let mut d = CoverageData::new();
    record(&mut d, "/a.ts", 3, 0);
    record(&mut d, "/a.ts", 4, 2);
    record(&mut d, "/a.ts", 3, 5);
    record(&mut d, "/a.ts", 4, 1);
    assert_eq!(line_tally(&d, "/a.ts"), (2, 2));
    record_fn(&mut d, "/a.ts", 1, "f", 0);
    record_fn(&mut d, "/a.ts", 9, "g", 3);
    assert_eq!(fn_tally(&d, "/a.ts"), (2, 1));
    record_branch(&mut d, "/a.ts", 0, 0, 2, true, 1);
    record_branch(&mut d, "/a.ts", 0, 1, 2, true, 0);
    record_branch(&mut d, "/a.ts", 1, 0, 7, false, 0);
    assert_eq!(branch_tally(&d, "/a.ts"), (3, 1));
    record_stmt(&mut d, "/a.ts", 0, 1, 0);
    record_stmt(&mut d, "/a.ts", 1, 2, 4);
    assert_eq!(stmt_tally(&d, "/a.ts"), (2, 1));
    assert_eq!(line_tally(&d, "/none.ts"), (0, 0));
    assert_eq!(covered_files(&d), vec!["/a.ts".to_string()]);
}

#[test]
fn rows_and_total() {
    let mut d = CoverageData::new();
    record(&mut d, "/a.ts", 1, 1);
    record(&mut d, "/a.ts", 2, 0);
    record(&mut d, "/b.ts", 1, 3);
    let r = file_row(&d, "/a.ts");
    assert_eq!((r.lh, r.lf), (1, 2));
    let (rows, total) = build_rows(&d, &["/a.ts".to_string(), "/b.ts".to_string()]);
    assert_eq!(rows.len(), 2);
    assert_eq!((total.lh, total.lf), (2, 3));
    assert_eq!(total.path, "");
}

#[test]
fn reported_files_pass_globs_and_directives() {
    let mut c = Coverage::new();
    add_include(&mut c, "src/**");
    mark_ignored(&mut c, "/p/src/skip.ts");
    let files = vec![
        ("/p/src/a.ts".to_string(), "src/a.ts".to_string()),
        ("/p/lib/b.ts".to_string(), "lib/b.ts".to_string()),
        ("/p/src/skip.ts".to_string(), "src/skip.ts".to_string()),
    ];
    assert_eq!(select_files(&c, &files), vec!["/p/src/a.ts".to_string()]);
}

#[test]
fn gate_reports_unmet_metrics() {
    let mut c = Coverage::new();
    let mut d = CoverageData::new();
    record(&mut d, "/a.ts", 1, 1);
    record(&mut d, "/a.ts", 2, 0);
    record(&mut d, "/b.ts", 1, 1);
    let (rows, total) = build_rows(&d, &["/a.ts".to_string(), "/b.ts".to_string()]);
    assert!(gate(&c, &total, &rows).is_empty());
    set_thresholds(&mut c, "lines=66.66");
    assert!(gate(&c, &total, &rows).is_empty());
    set_thresholds(&mut c, "lines=66.67");
    let f = gate(&c, &total, &rows);
    assert_eq!(f.len(), 1);
    assert_eq!(f[0].row, None);
    assert_eq!(f[0].metric, Metric::Lines);
    assert_eq!((f[0].hit, f[0].found), (2, 3));
    set_per_file(&mut c, true);
    let f = gate(&c, &total, &rows);
    assert_eq!(f.len(), 2);
    assert_eq!(f[1].row, Some(0));
}

#[test]
fn empty_metrics_count_as_full() {
    let mut c = Coverage::new();
    let d = CoverageData::new();
    let (rows, total) = build_rows(&d, &[]);
    set_thresholds(&mut c, "functions=100");
    assert!(gate(&c, &total, &rows).is_empty());
}

#[test]
fn vlq_segments_decode() {
    assert_eq!(vlq_decode(&chars("AACA")), Some(vec![0, 0, 1, 0]));
    assert_eq!(vlq_decode(&chars("D")), Some(vec![-1]));
    assert_eq!(vlq_decode(&chars("gB")), Some(vec![16]));
    assert_eq!(vlq_decode(&chars("A*A")), Some(vec![0, 0]));
}

#[test]
fn mappings_decode_cumulatively() {
    let m = parse_mappings_full("AAAA;AACA,EAAE;;").unwrap();
    assert_eq!(m.genmap, vec![Some(0), Some(1), None, None]);
    assert_eq!(m.segments.len(), 4);
    assert_eq!(m.segments[0], vec![(0, 0, 0)]);
    assert_eq!(m.segments[1], vec![(0, 1, 0), (2, 1, 2)]);
    assert!(m.segments[2].is_empty());
}

#[test]
fn byte_offsets_to_line_and_utf16_column() {
    let src = chars("ab\nc\u{e9}d\n\u{1F600}x");
    assert_eq!(byte_to_linecol(&src, 0), (0, 0));
    assert_eq!(byte_to_linecol(&src, 2), (0, 2));
    assert_eq!(byte_to_linecol(&src, 3), (1, 0));
    assert_eq!(byte_to_linecol(&src, 6), (1, 2));
    assert_eq!(byte_to_linecol(&src, 12), (2, 2));
    assert_eq!(byte_to_linecol(&src, 100), (2, 3));
}

#[test]
fn inline_source_map_mappings_are_decoded() {
    let json = "{\"version\":3,\"sources\":[\"a.ts\"],\"mappings\":\"AAAA;AACA\"}";
    let b64 = base64::engine::general_purpose::STANDARD.encode(json);
    let src = format!("(function(){{}})\n//# sourceMappingURL=data:application/json;base64,{}  \n", b64);
    assert_eq!(
        turbo_test::coverage::inline_map_mappings(&chars(&src)),
        Some("AAAA;AACA".to_string())
    );
    let bad = "x\n//# sourceMappingURL=data:application/json;base64,@@@\n";
    assert_eq!(turbo_test::coverage::inline_map_mappings(&chars(bad)), None);
    assert_eq!(turbo_test::coverage::inline_map_mappings(&chars("no map")), None);
}

#[test]
fn threshold_numbers_with_exponents() {
    let d = |t: &str| parse_decimal(&t.chars().collect::<Vec<char>>()).map(|d| (d.units, d.scale));
    assert_eq!(d("9e1"), Some((90, 0)));
    assert_eq!(d("87.5"), Some((875, 1)));
    assert_eq!(d("1.5e-1"), Some((15, 2)));
    assert_eq!(d("12345e-3"), Some((12345, 3)));
    assert_eq!(d("1E+2"), Some((100, 0)));
    assert_eq!(d("1e-12"), Some((0, 9)));
    assert_eq!(d("0.1234567891234"), Some((123456789, 9)));
    assert_eq!(d(".5"), Some((5, 1)));
    assert_eq!(d("5."), Some((5, 0)));
    assert_eq!(d("-5e1"), Some((0, 0)));
    assert_eq!(d("1e400"), Some((u64::MAX, 0)));
    assert_eq!(d("1e99999999999999999999999"), Some((u64::MAX, 0)));
    assert_eq!(d("0e99999999999999999999999"), Some((0, 0)));
    assert_eq!(d("5e-99999999999999999999999"), Some((0, 9)));
    assert_eq!(d("1e"), None);
    assert_eq!(d("e5"), None);
    assert_eq!(d("1e+"), None);
    assert_eq!(d("1.2.3"), None);
}
