use turbo_test::bundler::{add_edges, asset_stub, bundle_tail, esbuild_args, is_relative, next_module, wrap_module, BundlePlan, Next};
use turbo_test::covdata::{record, record_branch, record_fn, CoverageData};
use turbo_test::covmap::{coverable_scripts, coverable_url, profile_scripts, script_ranges, FunctionCov, RangeCov};
use turbo_test::lcov::{lcov_record, lcov_report};
use turbo_test::loader::{
    builtin_key, load_route, pending_mocks, pre_route, retry_with_metadata, stub_on_failure,
    unresolved_key, LoadRoute, PendingMocks, PreRoute,
};
use turbo_test::mocks::{cjs_wrapper, prepass_source, Prepass};
use turbo_test::modules::{add_setup_mock, externalizable_mock, rewrite_externals, Kind};
use turbo_test::registry::{
    hash_insert, plan_reused_file, record_setup_mocks, register_loaded, table_insert, table_remove,
    use_reuse_path, Registry, Worker,
};
use turbo_test::report::{coverage_ok, html_escape, json_escape};
use turbo_test::launcher::{isolate_env, keep_changed, select_discovered};

fn s(v: &str) -> String {
    v.to_string()
}

#[test]
fn lcov_record_lists_in_key_order() {
    let mut d = CoverageData::new();
    record(&mut d, "/a.ts", 2, 1);
    record(&mut d, "/a.ts", 1, 0);
    record_fn(&mut d, "/a.ts", 5, "b", 0);
    record_fn(&mut d, "/a.ts", 5, "a", 2);
    record_fn(&mut d, "/a.ts", 1, "z", 1);
    record_branch(&mut d, "/a.ts", 1, 0, 3, true, 2);
    record_branch(&mut d, "/a.ts", 0, 1, 2, false, 0);
    record_branch(&mut d, "/a.ts", 0, 0, 2, true, 0);
    let expected = "SF:/a.ts\nFN:1,z\nFN:5,a\nFN:5,b\nFNDA:1,z\nFNDA:2,a\nFNDA:0,b\nFNF:3\nFNH:2\n\
BRDA:2,0,0,0\nBRDA:2,0,1,-\nBRDA:3,1,0,2\nBRF:3\nBRH:1\nDA:1,0\nDA:2,1\nLF:2\nLH:1\nend_of_record\n";
    assert_eq!(lcov_record(&d, "/a.ts"), expected);
}

#[test]
fn lcov_without_function_or_branch_tables() {
    let mut d = CoverageData::new();
    record(&mut d, "/b.ts", 10, 12345678901);
    assert_eq!(lcov_record(&d, "/b.ts"), "SF:/b.ts\nDA:10,12345678901\nLF:1\nLH:1\nend_of_record\n");
    assert_eq!(lcov_record(&d, "/none.ts"), "SF:/none.ts\nLF:0\nLH:0\nend_of_record\n");
    assert_eq!(
        lcov_report(&d, &[s("/b.ts"), s("/none.ts")]),
        "SF:/b.ts\nDA:10,12345678901\nLF:1\nLH:1\nend_of_record\nSF:/none.ts\nLF:0\nLH:0\nend_of_record\n"
    );
}

#[test]
fn summary_escapes() {
    assert_eq!(json_escape("C:\\x\"y"), "C:\\\\x\\\"y");
    assert_eq!(html_escape("a<b>&c"), "a&lt;b&gt;&amp;c");
}

#[test]
fn profile_scripts_to_ranges() {
    assert!(coverable_url("/p/src/a.ts"));
    assert!(!coverable_url(""));
    assert!(!coverable_url("node:fs"));
    assert!(!coverable_url("/p/node_modules/x/i.js"));
    assert!(!coverable_url("/p/src/a.test.ts"));
    let r = |a: Option<u64>, b: Option<u64>, c: Option<i64>| RangeCov { start: a, end: b, count: c };
    let fs = vec![
        FunctionCov { name: s(""), ranges: vec![r(Some(0), Some(100), Some(1)), r(Some(10), Some(20), Some(0))] },
        FunctionCov { name: s("f"), ranges: vec![r(Some(30), Some(40), Some(3))] },
        FunctionCov { name: s("g"), ranges: vec![r(None, Some(50), Some(1)), r(Some(45), Some(48), Some(0))] },
    ];
    let (ranges, calls) = script_ranges(&fs);
    assert_eq!(ranges, vec![(0, 100, 1), (10, 20, 0), (30, 40, 3), (45, 48, 0)]);
    assert_eq!(calls, vec![(s("f"), 30, 3)]);
}

#[test]
fn profile_json_is_decoded_into_coverable_scripts() {
    let json = r#"{"result":{"result":[
        {"url":"/src/a.ts","functions":[
            {"functionName":"","ranges":[{"startOffset":0,"endOffset":100,"count":1}]},
            {"functionName":"f","ranges":[{"startOffset":30,"endOffset":40,"count":3},{"startOffset":32,"endOffset":35,"count":0}]},
            {"functionName":"g","ranges":[{"endOffset":50,"count":1}]}]},
        {"url":"/src/a.test.ts","functions":[{"functionName":"t","ranges":[{"startOffset":0,"endOffset":9,"count":1}]}]},
        {"url":"node:fs","functions":[]},
        {"functions":[]}]}}"#;
    assert_eq!(
        profile_scripts(json),
        Some(vec![(s("/src/a.ts"), vec![(0, 100, 1), (30, 40, 3), (32, 35, 0)], vec![(s("f"), 30, 3)])])
    );
    assert_eq!(profile_scripts("not json"), None);
    assert_eq!(profile_scripts("{}"), None);
    assert_eq!(profile_scripts(r#"{"result":{"result":[]}}"#), Some(vec![]));
}

#[test]
fn only_coverable_scripts_are_kept() {
    let f = FunctionCov { name: s("h"), ranges: vec![RangeCov { start: Some(1), end: Some(2), count: Some(5) }] };
    let g = FunctionCov { name: s("h"), ranges: vec![RangeCov { start: Some(1), end: Some(2), count: Some(5) }] };
    let out = coverable_scripts(&[(s("/p/x.ts"), vec![f]), (s("/p/node_modules/y.js"), vec![g])]);
    assert_eq!(out, vec![(s("/p/x.ts"), vec![(1, 2, 5)], vec![(s("h"), 1, 5)])]);
}

#[test]
fn require_routing() {
    let barrels = vec![s("@mui/icons-material")];
    assert!(matches!(pre_route("node:path", &barrels), PreRoute::NodeBuiltin(k) if k == "<node:node:path>"));
    assert!(matches!(pre_route("vitest", &barrels), PreRoute::Vitest));
    assert!(matches!(pre_route("@mui/icons-material/Add", &barrels), PreRoute::LazyStub(k, Some(d)) if k == "@mui/icons-material/Add" && d == "Add"));
    assert!(matches!(pre_route("./x", &barrels), PreRoute::Resolve));
    assert_eq!(builtin_key("fs"), "<node:fs>");
    assert_eq!(unresolved_key("/p/node_modules/a", "../b"), "<unresolved:/p/node_modules/a:../b>");
    assert_eq!(load_route("/a.ts", true, true, true, Kind::Esm), LoadRoute::Circular);
    assert_eq!(load_route("/a.css", false, true, true, Kind::Esm), LoadRoute::Asset);
    assert_eq!(load_route("/a.json", false, false, false, Kind::Esm), LoadRoute::Asset);
    assert_eq!(load_route("/x.node", false, false, false, Kind::Esm), LoadRoute::Addon);
    assert_eq!(load_route("/a.ts", false, true, true, Kind::Esm), LoadRoute::Mock);
    assert_eq!(load_route("/a.js", false, false, false, Kind::Cjs), LoadRoute::Cjs);
    assert_eq!(load_route("/a.mjs", false, false, false, Kind::Esm), LoadRoute::Esm);
    assert!(stub_on_failure("/p/node_modules/x/i.js", true));
    assert!(!stub_on_failure("/p/src/x.js", true));
    assert!(!stub_on_failure("/p/node_modules/x/i.js", false));
    assert!(retry_with_metadata("/p/src/e.ts", false, true, true));
    assert!(!retry_with_metadata("/p/node_modules/e.js", false, true, true));
    assert!(!retry_with_metadata("/p/src/e.ts", true, true, true));
    assert_eq!(pending_mocks(true, true), PendingMocks::Keep);
    assert_eq!(pending_mocks(false, true), PendingMocks::Drain);
    assert_eq!(pending_mocks(false, false), PendingMocks::Discard);
}

#[test]
fn setup_mock_externalization() {
    assert!(externalizable_mock("../analytics", "() => { return { track: vi.fn() }; }"));
    assert!(!externalizable_mock("../analytics", "() => ({ track: vi.fn() })"));
    assert!(!externalizable_mock("*?url", "() => ({})"));
    assert!(!externalizable_mock("./a", "async (importOriginal) => ({ ...(await importOriginal()) })"));
    assert!(!externalizable_mock("./a", "() => ({ C: () => <div/> })"));
    let mut ext = Vec::new();
    let mut targets = Vec::new();
    add_setup_mock(&mut ext, &mut targets, "../analytics", Some(s("/p/src/analytics.ts")));
    add_setup_mock(&mut ext, &mut targets, "../../analytics", Some(s("/p/other/analytics.ts")));
    add_setup_mock(&mut ext, &mut targets, "../analytics", None);
    assert_eq!(ext, vec![s("../analytics"), s("../../analytics")]);
    assert_eq!(targets, vec![(s("analytics"), s("/p/src/analytics.ts"))]);
}

#[test]
fn externals_rewritten_to_absolute_targets() {
    let map = vec![(s("analytics"), s("/p/src/analytics.ts"))];
    let text = "import a from \"../analytics\";\nimport b from '../../analytics';\nimport c from \"./other\";";
    let (out, changed) = rewrite_externals(text, &[s("../analytics"), s("../../analytics"), s("./other")], &map);
    assert!(changed);
    assert_eq!(
        out,
        "import a from \"/p/src/analytics.ts\";\nimport b from '/p/src/analytics.ts';\nimport c from \"./other\";"
    );
    let (same, changed2) = rewrite_externals(text, &[s("./other")], &map);
    assert!(!changed2);
    assert_eq!(same, text);
}

#[test]
fn prepass_modules() {
    assert!(matches!(prepass_source("const x = 1;"), Prepass::NoMocks));
    let src = "const h = vi.hoisted(() => ({ f: 1 }));\nvi.mock('./a', () => ({ f: h.f }));\n";
    match prepass_source(src) {
        Prepass::Source(t) => assert_eq!(
            t,
            "import { vi } from 'vitest';\nimport React from 'react';\nconst h = vi.hoisted(() => ({ f: 1 }));\nvi.mock(\"./a\", () => ({ f: h.f }));\n"
        ),
        _ => panic!("expected a prepass source"),
    }
    assert_eq!(
        cjs_wrapper("x();"),
        "(function (exports, module, require, __filename, __dirname) {\nx();\n})"
    );
}

#[test]
fn bundle_walk_visits_each_module_once() {
    let mut p = BundlePlan::start("/pkg/index.js");
    let n = next_module(&mut p);
    assert!(matches!(n, Next::Visit(ref m, 0) if m == "/pkg/index.js"));
    add_edges(&mut p, &[s("/pkg/a.js"), s("/pkg/index.js"), s("/pkg/b.js")]);
    assert_eq!(p.queue, vec![s("/pkg/a.js"), s("/pkg/b.js")]);
    assert!(matches!(next_module(&mut p), Next::Visit(ref m, 1) if m == "/pkg/b.js"));
    add_edges(&mut p, &[s("/pkg/a.js")]);
    assert!(matches!(next_module(&mut p), Next::Visit(ref m, 2) if m == "/pkg/a.js"));
    assert!(matches!(next_module(&mut p), Next::Done));
    assert_eq!(p.order, vec![s("/pkg/index.js"), s("/pkg/b.js"), s("/pkg/a.js")]);
    assert!(is_relative("./x") && is_relative("../y") && !is_relative("pkg"));
    assert_eq!(asset_stub("/a/b.css"), Some(s("module.exports = {};")));
    assert_eq!(asset_stub("/a/b.png"), Some(s("module.exports = \"\";")));
    assert_eq!(asset_stub("/a/b.js"), None);
    assert_eq!(wrap_module(12, "x"), "var require_m12 = __commonJS((exports, module) => {\nx\n});\n");
    assert_eq!(bundle_tail(0), "module.exports = require_m0();\n");
}

#[test]
fn registry_table_updates() {
    let mut t: Vec<(String, u8)> = vec![(s("/a"), 1), (s("/b"), 2)];
    table_insert(&mut t, s("/a"), 9);
    table_insert(&mut t, s("/c"), 3);
    assert_eq!(t, vec![(s("/a"), 9), (s("/b"), 2), (s("/c"), 3)]);
    table_remove(&mut t, &s("/b"));
    assert_eq!(t, vec![(s("/a"), 9), (s("/c"), 3)]);
    let mut h: Vec<(i32, String)> = Vec::new();
    hash_insert(&mut h, 5, s("/a"));
    hash_insert(&mut h, 5, s("/b"));
    assert_eq!(h, vec![(5, s("/b"))]);
    let mut r: Registry<u8, u8, u8> = Registry::new();
    register_loaded(&mut r, "/m.js", 1, 2, vec![s("x")], 3, 77);
    assert_eq!(r.cjs_exports, vec![(s("/m.js"), 2)]);
    assert_eq!(r.real_exports, vec![(s("/m.js"), 1)]);
    assert_eq!(r.path_by_hash, vec![(77, s("/m.js"))]);
}

#[test]
fn reuse_path_planning() {
    assert!(use_reuse_path(false, true, false));
    assert!(!use_reuse_path(true, true, false));
    assert!(!use_reuse_path(false, true, true));
    let mut w: Worker<u8, u8, u8, u8, u8> = Worker::new();
    let st = plan_reused_file(&w, true);
    assert!(st.first_file && st.install_dom);
    w.reuse_ctx = Some(1);
    w.dom_installed = true;
    let st = plan_reused_file(&w, true);
    assert!(!st.first_file && !st.install_dom);
    w.registry.mocks.push((s("/p/analytics.ts"), s("f")));
    record_setup_mocks(&mut w);
    assert_eq!(w.setup_mocks, vec![s("/p/analytics.ts")]);
}

#[test]
fn discovery_and_changed_filters() {
    let files = vec![
        (s("/p/src/a.test.ts"), s("src/a.test.ts")),
        (s("/p/lib/b.test.ts"), s("lib/b.test.ts")),
    ];
    assert_eq!(
        select_discovered(&files, &vec![s("src/**")], &vec![]),
        vec![s("/p/src/a.test.ts")]
    );
    let args = vec![(s("a.test.ts"), s("/p/a.test.ts")), (s("b.test.ts"), s("/p/b.test.ts"))];
    assert_eq!(keep_changed(&args, &[s("/p/b.test.ts")]), vec![s("b.test.ts")]);
    assert_eq!(isolate_env(Some(false)), Some(s("TURBO_REUSE_ISOLATE")));
    assert_eq!(isolate_env(Some(true)), Some(s("TURBO_NO_REUSE")));
    assert_eq!(isolate_env(None), None);
}

#[test]
fn no_reported_file_fails_coverage() {
    assert!(!coverage_ok(0, 0));
    assert!(coverage_ok(3, 0));
    assert!(!coverage_ok(3, 1));
}

#[test]
fn esbuild_argument_list() {
    let a = esbuild_args("/p/setup.ts", &[s("./mocks/a"), s("react")], true, Some("/p/tsconfig.json"), "/c/esb-1.mjs");
    assert_eq!(a.len(), 1 + 17 + 2 + 1 + 1 + 1);
    assert_eq!(a[0], "/p/setup.ts");
    assert_eq!(a[1], "--bundle");
    assert_eq!(a[17], "--define:process.env.NODE_ENV=globalThis.process.env.NODE_ENV");
    assert_eq!(a[18], "--external:./mocks/a");
    assert_eq!(a[19], "--external:react");
    assert_eq!(a[20], "--packages=external");
    assert_eq!(a[21], "--tsconfig=/p/tsconfig.json");
    assert_eq!(a[22], "--outfile=/c/esb-1.mjs");
    let b = esbuild_args("f.ts", &[], false, None, "o.mjs");
    assert_eq!(b.len(), 19);
    assert_eq!(b[18], "--outfile=o.mjs");
}
