use turbo_test::modules::{
    collect_named_imports, detect_kind, extract_hoisted, file_has_decorator, is_asset,
    is_esm_module, is_node_builtin, is_react_family, kind_of, lazy_stub_factory_src,
    lazy_stub_match, mock_specifiers, needs_dom, parse_stub_specs, pkg_type_of, spec_basename,
    vitest_key, Kind, PkgType,
};

#[test]
fn node_builtins_with_and_without_scheme() {
    assert!(is_node_builtin("fs"));
    assert!(is_node_builtin("node:fs/promises"));
    assert!(is_node_builtin("node:path"));
    assert!(!is_node_builtin("node:nope"));
    assert!(!is_node_builtin("react"));
}

#[test]
fn assets_by_extension() {
    assert!(is_asset("/a/b/logo.svg"));
    assert!(is_asset("styles.module.css"));
    assert!(!is_asset("/a/b/index.ts"));
    assert!(!is_asset("README"));
}

#[test]
fn kind_by_extension() {
    assert_eq!(kind_of("/x/a.cjs"), Kind::Cjs);
    assert_eq!(kind_of("/x/a.js"), Kind::Esm);
    assert_eq!(kind_of("/x/a"), Kind::Esm);
}

#[test]
fn basename_of_specifiers() {
    assert_eq!(spec_basename("../../x/analytics"), "analytics");
    assert_eq!(spec_basename("pkg/sub/"), "sub");
    assert_eq!(spec_basename("plain"), "plain");
}

#[test]
fn react_family_detection() {
    assert!(is_react_family("react"));
    assert!(is_react_family("/p/node_modules/react"));
    assert!(is_react_family("react-dom/client"));
    assert!(is_react_family("react/jsx-runtime"));
    assert!(is_react_family("scheduler"));
    assert!(!is_react_family("preact"));
}

#[test]
fn decorators_found_by_line_or_parameter() {
    assert!(file_has_decorator("class A {\n  @Input() x = 1;\n}"));
    assert!(file_has_decorator("constructor(@Inject(T) t) {}"));
    assert!(!file_has_decorator("const email = 'a@b.c';\n"));
    assert!(!file_has_decorator("// @ 1\n"));
}

#[test]
fn stub_specs_are_trimmed_and_blank_free() {
    assert_eq!(
        parse_stub_specs(" @mui/icons-material , ,lodash "),
        vec!["@mui/icons-material".to_string(), "lodash".to_string()]
    );
    assert!(parse_stub_specs("").is_empty());
}

#[test]
fn lazy_stub_match_barrel_and_subpath() {
    let barrels = vec!["@mui/icons-material".to_string()];
    assert_eq!(
        lazy_stub_match("@mui/icons-material", &barrels),
        Some(("@mui/icons-material".to_string(), None))
    );
    assert_eq!(
        lazy_stub_match("@mui/icons-material/Close.js", &barrels),
        Some(("@mui/icons-material/Close.js".to_string(), Some("Close".to_string())))
    );
    assert_eq!(
        lazy_stub_match("@mui/icons-material/esm/Add", &barrels),
        Some(("@mui/icons-material/esm/Add".to_string(), Some("Add".to_string())))
    );
    assert_eq!(lazy_stub_match("@mui/material", &barrels), None);
}

#[test]
fn lazy_stub_factory_embeds_default_name() {
    let src = lazy_stub_factory_src("'Close'");
    assert!(src.contains("var DEFAULT_NAME = 'Close';"));
    assert!(src.starts_with("(function() {"));
    assert!(src.ends_with("})()"));
}

#[test]
fn package_type_declarations() {
    assert_eq!(pkg_type_of("{\"type\": \"module\"}"), Some(PkgType::Module));
    assert_eq!(pkg_type_of("{\"type\":\"commonjs\"}"), Some(PkgType::CommonJs));
    assert_eq!(pkg_type_of("{\"name\":\"x\"}"), None);
}

#[test]
fn detect_kind_by_extension_package_then_syntax() {
    assert_eq!(detect_kind("/a.cjs", Some(PkgType::Module), ""), Kind::Cjs);
    assert_eq!(detect_kind("/a.mts", Some(PkgType::CommonJs), ""), Kind::Esm);
    assert_eq!(detect_kind("/a.js", Some(PkgType::CommonJs), "export default 1"), Kind::Cjs);
    assert_eq!(detect_kind("/a.js", None, "module.exports = 1;"), Kind::Cjs);
    assert_eq!(detect_kind("/a.js", None, "import x from 'y'; module.exports = x;"), Kind::Esm);
    assert_eq!(detect_kind("/a.js", None, "var x = 1;"), Kind::Esm);
}

#[test]
fn esm_module_by_extension_or_package() {
    assert!(is_esm_module("/a.tsx", None));
    assert!(!is_esm_module("/a.cts", Some("{\"type\":\"module\"}")));
    assert!(is_esm_module("/a.js", Some("{\"type\": \"module\"}")));
    assert!(!is_esm_module("/a.js", None));
}

#[test]
fn dom_need_by_extension_or_markers() {
    assert!(needs_dom("/a.test.tsx", ""));
    assert!(needs_dom("/a.test.ts", "import { render } from '@testing-library/react'"));
    assert!(needs_dom("/a.test.ts", "document.body"));
    assert!(!needs_dom("/a.test.ts", "expect(1 + 1).toBe(2)"));
}

#[test]
fn mock_specifiers_are_distinct_and_grouped_by_call() {
    let src = "vi.mock('./a');\njest.mock(\"./b\", () => ({}));\nvi.mock( `./a` );\nvi.doMock('./c');\nvi.mock(name);";
    assert_eq!(
        mock_specifiers(src),
        vec!["./a".to_string(), "./c".to_string(), "./b".to_string()]
    );
}

#[test]
fn vitest_builtin_key() {
    assert_eq!(vitest_key(), "<builtin:vitest>");
}

#[test]
fn named_imports_from_a_mocked_path() {
    let text = "import { a, b as c, default as D } from \"/m.js\";\nimport{ e }from\"/m.js\";\nimport { z } from \"/other.js\";";
    assert_eq!(
        collect_named_imports(text, "/m.js"),
        vec!["e".to_string(), "a".to_string(), "b".to_string(), "default".to_string()]
    );
}

#[test]
fn named_imports_take_the_imported_name_of_their_own_clause() {
    assert_eq!(
        collect_named_imports(r#"import { a, b as c } from "/x";"#, "/x"),
        vec!["a".to_string(), "b".to_string()]
    );
    let other = collect_named_imports(r#"import { z } from "/y"; import D from "/x";"#, "/x");
    assert!(!other.contains(&"z".to_string()));
    assert!(other.is_empty());
}

#[test]
fn hoisted_declarations_are_whole_statements() {
    let src = "import x from 'y';\nconst mocks = vi.hoisted(() => ({ f: vi.fn() }));\nlet n = 1;\n";
    assert_eq!(
        extract_hoisted(src),
        vec!["const mocks = vi.hoisted(() => ({ f: vi.fn() }));".to_string()]
    );
    assert!(extract_hoisted("vi.hoisted(() => 1)").is_empty());
}
