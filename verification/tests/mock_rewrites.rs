use turbo_test::mocks::{
    assigns_word, contains_word, extract_first_string_literal, extract_mocks,
    extract_require_spec, finish_mr_cjs, hoist_mock_setup, postprocess_mr_cjs, replace_all,
    replace_word, rewrite_shared_lets, shared_mock_lets, strip_test_blocks, used_in_shorthand,
};

fn chars(s: &str) -> Vec<char> {
    s.chars().collect()
}

fn text(v: &[char]) -> String {
    v.iter().collect()
}

#[test]
fn first_string_literal_and_require_spec() {
    assert_eq!(extract_first_string_literal(&chars("x = \"a\" + 'b'")).map(|v| text(&v)), Some("a".to_string()));
    assert_eq!(extract_first_string_literal(&chars("no quotes")), None);
    assert_eq!(
        extract_require_spec(&chars("var import_x = __toESM(require(\"./x\"), 1);")).map(|v| text(&v)),
        Some("./x".to_string())
    );
    assert_eq!(extract_require_spec(&chars("var y = 1;")), None);
}

#[test]
fn whole_word_search() {
    assert!(contains_word(&chars("a + mockUser;"), &chars("mockUser")));
    assert!(!contains_word(&chars("a + mockUsers;"), &chars("mockUser")));
    assert!(!contains_word(&chars("$mockUser"), &chars("mockUser")));
}

#[test]
fn assignment_detection() {
    assert!(assigns_word(&chars("captured = fn;"), &chars("captured")));
    assert!(!assigns_word(&chars("if (captured == fn) {}"), &chars("captured")));
    assert!(!assigns_word(&chars("const f = captured => 1"), &chars("captured")));
    assert!(!assigns_word(&chars("xcaptured = 1"), &chars("captured")));
}

#[test]
fn shorthand_detection() {
    assert!(used_in_shorthand(&chars("return { hookValue };"), &chars("hookValue")));
    assert!(used_in_shorthand(&chars("({ a, hookValue })"), &chars("hookValue")));
    assert!(!used_in_shorthand(&chars("f(a, hookValue, b)"), &chars("hookValue")));
    assert!(!used_in_shorthand(&chars("{ hookValue: 1 }"), &chars("hookValue")));
}

#[test]
fn test_bodies_are_stripped() {
    let src = chars("const a = require('a');\nit('x', () => { use(b); });\nconst item = 1;\ndescribe.each([1])('y', (n) => {});\n");
    assert_eq!(
        text(&strip_test_blocks(&src)),
        "const a = require('a');\nit;\nconst item = 1;\ndescribe.each('y', (n) => {});\n"
    );
}

#[test]
fn mocks_with_and_without_factories() {
    let src = chars("vi.mock('./a', () => ({ f: vi.fn() }));\njest.mock(\"./b\");\nvi.mock(name);");
    let m: Vec<(String, String)> = extract_mocks(&src).into_iter().map(|(s, f)| (text(&s), text(&f))).collect();
    assert_eq!(
        m,
        vec![
            ("./a".to_string(), "() => ({ f: vi.fn() })".to_string()),
            ("./b".to_string(), String::new()),
        ]
    );
}

#[test]
fn a_closing_paren_before_any_comma_means_no_factory() {
    let pairs = |src: &str| -> Vec<(String, String)> {
        extract_mocks(&chars(src)).into_iter().map(|(s, f)| (text(&s), text(&f))).collect()
    };
    assert_eq!(
        pairs("vi.mock('./a', () => ({ x: 1 }));\njest.mock('b');"),
        vec![("./a".to_string(), "() => ({ x: 1 })".to_string()), ("b".to_string(), String::new())]
    );
    assert_eq!(pairs("vi.mock('./a');\nfoo(1, 2);"), vec![("./a".to_string(), String::new())]);
}

#[test]
fn whole_word_replacement_skips_strings_keys_and_members() {
    let out = replace_word(
        &chars("mockRole = 'mockRole'; x.mockRole; ({ mockRole: mockRole }); ...mockRole"),
        &chars("mockRole"),
        &chars("G.r"),
    );
    assert_eq!(text(&out), "G.r = 'mockRole'; x.mockRole; ({ mockRole: G.r }); ...G.r");
}

#[test]
fn replace_all_non_empty_pattern() {
    assert_eq!(text(&replace_all(&chars("a-b-c"), &chars("-"), &chars("+="))), "a+=b+=c");
}

#[test]
fn shared_lets_route_through_a_global() {
    let src = "let capturedFn;\nvi.mock('./m', () => ({ run: (f) => { capturedFn = f; } }));\nit('x', () => capturedFn());\n";
    assert_eq!(shared_mock_lets(src), vec!["capturedFn".to_string()]);
    let out = rewrite_shared_lets(src, &["capturedFn".to_string()]).unwrap();
    assert!(out.starts_with("globalThis.__ms = globalThis.__ms || {};\n"));
    assert!(out.contains("\nglobalThis.__ms.capturedFn;\n"));
    assert!(out.contains("{ globalThis.__ms.capturedFn = f; }"));
    assert!(shared_mock_lets("let capturedFn;\n").is_empty());
}

#[test]
fn short_names_are_not_shared() {
    let src = "let fn1;\nvi.mock('./m', () => ({ run: (f) => { fn1 = f; } }));\n";
    assert!(shared_mock_lets(src).is_empty());
}

#[test]
fn esbuild_output_postprocessing() {
    let out = postprocess_mr_cjs("var __defProp = Object.defineProperty;\nvar __toESM = (m) => m;\n");
    assert!(out.contains("var __defProp = (o, k, d) => Object.defineProperty(o, k, Object.assign({ configurable: true }, d));"));
    assert!(out.contains("var __toESM_unused = (m) => m;"));
    assert!(out.starts_with("var __defProp = (o, k, d)"));
}

#[test]
fn finishing_without_shared_lets_only_postprocesses() {
    let raw = "const x = 1;\n";
    let out = finish_mr_cjs("var __toESM = 1;", raw).unwrap();
    assert_eq!(out, postprocess_mr_cjs("var __toESM = 1;"));
}

#[test]
fn hoisting_leaves_mock_free_code_alone() {
    let code = "var import_a = require(\"./a\");\nconsole.log(import_a);\n";
    assert_eq!(hoist_mock_setup(code), code);
}

#[test]
fn hoisting_moves_mocks_before_consumer_requires() {
    let code = "var import_vitest = require(\"vitest\");\nvar import_api = require(\"./api\");\nimport_vitest.vi.mock(\"./api\", () => ({ get: 1 }));\nit(\"t\", () => import_api.get);\n";
    let out = hoist_mock_setup(code);
    let mock_at = out.find("vi.mock(\"./api\"").unwrap();
    let req_at = out.find("var import_api = require(\"./api\");").unwrap();
    assert!(mock_at < req_at);
    assert!(out.find("var import_vitest").unwrap() < mock_at);
}
