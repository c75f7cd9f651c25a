use turbo_test::dom::{enabled as dom_enabled, intercept_read, is_known_member, log_enabled, reset, DomThread};
use turbo_test::graph::{affected_tests, extract_specifiers, is_node_modules, transitive_imports, DepGraph};
use turbo_test::napi::{napi_valuetype, value_type_of, ValueTraits};
use turbo_test::registry::{
    add_import_edge, clear_registry, end_worker_reuse, forget_registry, importer_closure,
    invalidate_importers, is_reuse_enabled, reset_app_registry, reuse_decision, Registry, Worker,
};
use turbo_test::transform::{
    fits_oxc, needs_transform, nonblank_chars, transform, transform_cache_stats, transform_decorators_with_metadata, transform_with, CacheStats,
};

fn s(v: &str) -> String {
    v.to_string()
}

fn graph(edges: &[(&str, &[&str])]) -> DepGraph {
    DepGraph {
        edges: edges
            .iter()
            .map(|(k, ds)| (s(k), ds.iter().map(|d| s(d)).collect()))
            .collect(),
    }
}

#[test]
fn specifiers_after_from_import_require() {
    let src = "import a from './a';\nexport * from \"./b\";\nconst c = require( './c' );\nimport('./d');\nreimport('./e');\nimport x;";
    assert_eq!(
        extract_specifiers(src),
        vec![s("./a"), s("./b"), s("./d"), s("./c")]
    );
}

#[test]
fn node_modules_components() {
    assert!(is_node_modules("/p/node_modules/x/index.js"));
    assert!(!is_node_modules("/p/my_node_modules/x.js"));
}

#[test]
fn transitive_imports_stop_at_node_modules() {
    let g = graph(&[
        ("/t.test.ts", &["/a.ts"]),
        ("/a.ts", &["/b.ts", "/p/node_modules/lib/index.js"]),
        ("/b.ts", &["/a.ts"]),
        ("/p/node_modules/lib/index.js", &["/p/node_modules/dep/index.js"]),
    ]);
    let mut r = transitive_imports(&g, "/t.test.ts");
    r.sort();
    assert_eq!(r, vec![s("/a.ts"), s("/b.ts"), s("/p/node_modules/lib/index.js")]);
}

#[test]
fn affected_tests_are_exact() {
    let g = graph(&[
        ("/t1.test.ts", &["/a.ts"]),
        ("/t2.test.ts", &["/b.ts"]),
        ("/a.ts", &["/c.ts"]),
    ]);
    let tests = vec![s("/t1.test.ts"), s("/t2.test.ts"), s("/t3.test.ts")];
    assert_eq!(affected_tests(&g, &[s("/c.ts")], &tests), vec![s("/t1.test.ts")]);
    assert_eq!(affected_tests(&g, &[s("/t3.test.ts")], &tests), vec![s("/t3.test.ts")]);
    assert!(affected_tests(&g, &[s("/z.ts")], &tests).is_empty());
}

fn registry() -> Registry<u32, u32, u32> {
    let mut r: Registry<u32, u32, u32> = Registry::new();
    for p in ["/app/a.ts", "/app/b.ts", "/app/c.ts", "/p/node_modules/x/i.js", "/app/m.ts"] {
        r.cjs_exports.push((s(p), 1));
        r.esm_by_path.push((s(p), 2));
    }
    r
}

#[test]
fn importers_of_a_remocked_module_are_evicted() {
    let mut r = registry();
    add_import_edge(&mut r, "/app/m.ts", "/app/a.ts");
    add_import_edge(&mut r, "/app/m.ts", "/p/node_modules/x/i.js");
    add_import_edge(&mut r, "/app/a.ts", "/app/b.ts");
    add_import_edge(&mut r, "/app/a.ts", "/app/b.ts");
    add_import_edge(&mut r, "/p/node_modules/x/i.js", "/app/c.ts");
    let mut ev = importer_closure(&r.import_edges, "/app/m.ts");
    ev.sort();
    assert_eq!(ev, vec![s("/app/a.ts"), s("/app/b.ts")]);
    invalidate_importers(&mut r, "/app/m.ts");
    let left: Vec<String> = r.cjs_exports.iter().map(|e| e.0.clone()).collect();
    assert_eq!(left, vec![s("/app/c.ts"), s("/p/node_modules/x/i.js"), s("/app/m.ts")]);
    assert_eq!(r.esm_by_path.len(), 3);
    assert_eq!(r.import_edges.len(), 3);
}

#[test]
fn a_file_reset_drops_only_test_mocks() {
    let mut r = registry();
    r.mocks.push((s("/app/a.ts"), s("factory a")));
    r.mocks.push((s("/app/setup.ts"), s("factory s")));
    r.path_by_hash.push((7, s("/app/a.ts")));
    r.path_by_hash.push((8, s("/app/b.ts")));
    r.loading.push((s("/app/b.ts"), 3));
    r.extra_exports.push((s("/app/a.ts"), vec![s("x")]));
    reset_app_registry(&mut r, &[s("/app/setup.ts")]);
    assert_eq!(r.mocks, vec![(s("/app/setup.ts"), s("factory s"))]);
    assert_eq!(r.path_by_hash, vec![(8, s("/app/b.ts"))]);
    assert!(r.cjs_exports.iter().all(|e| e.0 != "/app/a.ts"));
    assert_eq!(r.cjs_exports.len(), 4);
    assert!(r.loading.is_empty() && r.extra_exports.is_empty() && r.lazy_stub_ns.is_empty());
}

#[test]
fn clearing_keeps_bundle_dirs() {
    let mut r = registry();
    r.bundle_src_dir.push((s("/cache/b.mjs"), s("/app")));
    r.mocks.push((s("/app/a.ts"), s("f")));
    clear_registry(&mut r);
    assert!(r.cjs_exports.is_empty() && r.esm_by_path.is_empty() && r.mocks.is_empty());
    assert_eq!(r.bundle_src_dir.len(), 1);
}

#[test]
fn reuse_decision_is_made_once() {
    let mut w: Worker<u8, u8, u8, u8, u8> = Worker::new();
    assert!(!is_reuse_enabled(&w));
    assert!(reuse_decision(&mut w, false, false, true));
    assert!(reuse_decision(&mut w, true, false, false));
    assert!(is_reuse_enabled(&w));
    let mut v: Worker<u8, u8, u8, u8, u8> = Worker::new();
    assert!(!reuse_decision(&mut v, true, true, true));
}

#[test]
fn ending_reuse_drops_the_kept_isolate() {
    let mut w: Worker<u8, u8, u8, u8, u8> = Worker::new();
    w.dom_installed = true;
    end_worker_reuse(&mut w);
    assert!(w.dom_installed);
    w.reuse_iso = Some(1);
    w.reuse_ctx = Some(2);
    w.setup_mocks.push(s("/app/setup.ts"));
    w.registry.cjs_exports.push((s("/a"), 1));
    end_worker_reuse(&mut w);
    assert!(!w.dom_installed && w.reuse_iso.is_none() && w.reuse_ctx.is_none());
    assert!(w.setup_mocks.is_empty() && w.registry.cjs_exports.is_empty());
}

#[test]
fn forgetting_hands_back_the_old_handles() {
    let mut w: Worker<u8, u8, u8, u8, u8> = Worker::new();
    w.reuse_iso = Some(5);
    w.registry.cjs_exports.push((s("/a"), 1));
    let f = forget_registry(&mut w);
    assert_eq!(f.reuse_iso, Some(5));
    assert_eq!(f.registry.cjs_exports.len(), 1);
    assert!(w.reuse_iso.is_none() && w.registry.cjs_exports.is_empty());
}

#[test]
fn napi_types_and_codes() {
    let t = ValueTraits { undefined: false, null: false, boolean: false, number: true, string: true, function: false };
    assert_eq!(value_type_of(t), napi_valuetype::Number);
    let o = ValueTraits { undefined: false, null: false, boolean: false, number: false, string: false, function: false };
    assert_eq!(value_type_of(o), napi_valuetype::Object);
    assert_eq!(napi_valuetype::Function.code(), 7);
    assert_eq!(napi_valuetype::from_code(9), Some(napi_valuetype::Bigint));
    assert_eq!(napi_valuetype::from_code(10), None);
}

#[test]
fn dom_members_and_missing_log() {
    assert!(is_known_member("appendChild"));
    assert!(is_known_member("Symbol(Symbol.iterator)"));
    assert!(!is_known_member("scrollTo"));
    let mut t: DomThread<u32, u8, u8> = DomThread::new();
    t.dom = Some(1);
    t.style.push((3, 4));
    assert!(!intercept_read(&mut t, "then", true));
    assert!(intercept_read(&mut t, "scrollTo", true));
    assert!(intercept_read(&mut t, "scrollTo", true));
    assert!(intercept_read(&mut t, "animate", false));
    assert_eq!(t.missing, vec![(s("scrollTo"), 2)]);
    let log = reset(&mut t, true);
    assert_eq!(log, vec![(s("scrollTo"), 2)]);
    assert!(t.missing.is_empty() && t.dom.is_none() && t.style.is_empty());
}

#[test]
fn cache_counters() {
    let mut c = CacheStats::new();
    c.hit();
    c.hit();
    c.miss();
    assert_eq!(transform_cache_stats(&c), (2, 1));
    let mut w = CacheStats { hits: u64::MAX, misses: 0 };
    w.hit();
    assert_eq!(w.hits, 0);
}

#[test]
fn typescript_is_lowered() {
    assert!(needs_transform("/a/b.tsx"));
    assert!(!needs_transform("/a/b.js"));
    let out = transform("/a/x.ts", "const n: number = 1;\nexport { n };\n").unwrap();
    assert!(!out.contains(": number"));
    assert!(out.contains("const n = 1"));
}

#[test]
fn legacy_decorators_are_lowered_with_metadata() {
    let src = "function Dec(): ClassDecorator { return () => {}; }\n@Dec()\nexport class Svc {\n  constructor(private readonly name: string) {}\n}\n";
    let out = transform_decorators_with_metadata("svc.ts", src).unwrap();
    assert!(!out.contains("@Dec"));
    assert!(out.contains("babelHelpers.decorate"));
    assert!(out.contains("design:paramtypes"));
    // The same through the general entry point.
    assert_eq!(transform_with("svc.ts", src, true).unwrap(), out);
    // Without the switch the types are stripped and no metadata is emitted.
    let plain = transform_with("plain.ts", "const n: number = 1;\nexport { n };\n", false).unwrap();
    assert!(!plain.contains(": number"));
    assert_eq!(plain, transform("plain.ts", "const n: number = 1;\nexport { n };\n").unwrap());
}

#[test]
fn oxc_input_is_bounded_by_its_non_blank_characters() {
    assert_eq!(nonblank_chars("f(a[1], {b: (2)})"), 15);
    assert_eq!(nonblank_chars(" \t\r\n"), 0);
    assert!(fits_oxc(&("!".repeat(256) + "\n\n   ")));
    assert!(!fits_oxc(&"!".repeat(257)));
}

#[test]
fn oxc_returns_on_the_deepest_admitted_input() {
    for unit in ["(", "[", "{", "!(", "`${", "<a>", "x=>(", "new(", "if(x){"] {
        let src = unit.repeat(256 / unit.chars().count());
        assert!(fits_oxc(&src));
        for path in ["/d.ts", "/d.tsx"] {
            let _ = transform(path, &src);
            let _ = transform_decorators_with_metadata(path, &src);
        }
    }
}

#[test]
fn transform_reports_parse_errors() {
    let r = transform_with("bad.ts", "const = ;", false);
    assert!(matches!(r, Err(e) if e.starts_with("parse errors")));
}

#[test]
fn dom_switches_default_off() {
    assert!(!dom_enabled(None));
    assert!(!dom_enabled(Some("")));
    assert!(!dom_enabled(Some("0")));
    assert!(dom_enabled(Some("1")));
    assert!(!log_enabled(None));
    assert!(log_enabled(Some("true")));
}
