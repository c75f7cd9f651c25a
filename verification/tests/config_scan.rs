use turbo_test::launcher::walk_skips;
use turbo_test::config::{
    cjs_first_dir, jest_config_names, resolver_conditions, resolver_extensions, vitest_markers,
    cjs_first_config, config_list_value, decorator_metadata_in, config_string_value, find_config_key, isolate_false_in,
    normalize_path, path_join, pkg_has_jest, probe_candidates, with_extension, resolve_request, resolve_spec,
    substitute_root_dir,
};

#[test]
fn config_key_skips_comment_mentions() {
    let src = "// setupFiles: ['./x.ts']\nexport default { setupFiles: ['./y.ts'] }";
    let at = find_config_key(src, "setupFiles").unwrap();
    let chars: Vec<char> = src.chars().collect();
    let line_start = src.find('\n').unwrap() + 1;
    assert!(at > line_start);
    let key: String = chars[at..at + 10].iter().collect();
    assert_eq!(key, "setupFiles");
}

#[test]
fn config_key_needs_a_colon() {
    assert_eq!(find_config_key("the setupFiles option", "setupFiles"), None);
    assert_eq!(find_config_key("setupFiles   : []", "setupFiles"), Some(0));
}

#[test]
fn config_string_value_reads_quoted_values() {
    let cfg = "module.exports = { rootDir: '../app', testEnvironment: \"jsdom\" }";
    assert_eq!(config_string_value(cfg, "rootDir"), Some("../app".to_string()));
    assert_eq!(config_string_value(cfg, "testEnvironment"), Some("jsdom".to_string()));
    assert_eq!(config_string_value("{ rootDir: dir }", "rootDir"), None);
    assert_eq!(config_string_value("{ }", "rootDir"), None);
}

#[test]
fn config_list_value_unquotes_entries() {
    let cfg = "test: { setupFiles: ['./a.ts', \"./b.ts\" , `c.ts`, ''] }";
    assert_eq!(
        config_list_value(cfg, "setupFiles"),
        Some(vec!["./a.ts".to_string(), "./b.ts".to_string(), "c.ts".to_string()])
    );
    assert_eq!(config_list_value("setupFiles: './a.ts'", "setupFiles"), None);
    assert_eq!(config_list_value("nothing here", "setupFiles"), None);
}

#[test]
fn normalize_path_resolves_dots_lexically() {
    assert_eq!(normalize_path("/a/b/../c/./d"), "/a/c/d");
    assert_eq!(normalize_path("/../x"), "/x");
    assert_eq!(normalize_path("a/../../b"), "b");
    assert_eq!(normalize_path("./a//b/"), "a/b");
    assert_eq!(normalize_path("/"), "/");
    assert_eq!(normalize_path(""), "");
}

#[test]
fn path_join_follows_pathbuf_push() {
    assert_eq!(path_join("/root", "src/a.ts"), "/root/src/a.ts");
    assert_eq!(path_join("/root/", "a"), "/root/a");
    assert_eq!(path_join("/root", "/abs"), "/abs");
    assert_eq!(path_join("", "a"), "a");
}

#[test]
fn isolate_false_ignores_comments_and_whitespace() {
    assert!(isolate_false_in("export default { test: { isolate :\n false } }"));
    assert!(!isolate_false_in("// isolate: false\nexport default {}"));
    assert!(!isolate_false_in("export default { test: { isolate: true } }"));
}

#[test]
fn jest_environment_decides_cjs_first() {
    assert!(cjs_first_config("module.exports = { testEnvironment: 'node' }"));
    assert!(cjs_first_config("module.exports = {}"));
    assert!(!cjs_first_config("module.exports = { testEnvironment: 'jsdom' }"));
    assert!(!cjs_first_config("{ testEnvironment: \"jest-environment-jsdom\" }"));
}

#[test]
fn root_dir_token_is_substituted() {
    assert_eq!(substitute_root_dir("<rootDir>/setup.ts", "/proj"), "/proj/setup.ts");
    assert_eq!(substitute_root_dir("./setup.ts", "/proj"), "./setup.ts");
}

#[test]
fn package_json_jest_key_is_found_only_before_a_colon() {
    assert!(pkg_has_jest("{ jest: { testEnvironment: 'node' } }"));
    assert!(!pkg_has_jest("{ \"name\": \"x\", \"jest\": { } }"));
    assert!(!pkg_has_jest("{ \"name\": \"jest-free\" }"));
}

#[test]
fn resolve_request_strips_node_modules_prefix() {
    assert_eq!(resolve_request("node_modules/x/dist/y"), "x/dist/y");
    assert_eq!(resolve_request("./local"), "./local");
}

#[test]
fn probe_candidates_for_relative_imports() {
    let c = probe_candidates("./util", "/src");
    assert_eq!(c.len(), 13);
    assert_eq!(c[0], "/src/./util");
    assert_eq!(c[1], "/src/./util.mjs");
    assert_eq!(c[4], "/src/./util.ts");
    assert_eq!(c[7], "/src/./util/index.mjs");
    assert_eq!(c[12], "/src/./util/index.cjs");
    assert!(probe_candidates("react", "/src").is_empty());
}

#[test]
fn with_extension_replaces_the_last_extension() {
    let c = probe_candidates("./a.b", "/d");
    assert_eq!(c[2], "/d/./a.js");
}

#[test]
fn resolve_spec_prefers_the_resolver_then_probes() {
    let found = vec![false; 13];
    assert_eq!(resolve_spec("./x", "/d", Some("/r/x.ts".to_string()), &found), Some("/r/x.ts".to_string()));
    let mut found = vec![false; 13];
    found[4] = true;
    found[9] = true;
    assert_eq!(resolve_spec("./x", "/d", None, &found), Some("/d/./x.ts".to_string()));
    assert_eq!(resolve_spec("./x", "/d", None, &vec![false; 13]), None);
    assert_eq!(resolve_spec("pkg", "/d", None, &[]), None);
}

#[test]
fn discovery_skips_hidden_and_build_dirs() {
    assert!(walk_skips(".cache", true));
    assert!(walk_skips(".env.test.ts", false));
    assert!(walk_skips("node_modules", true));
    assert!(walk_skips("target", true));
    assert!(!walk_skips("src", true));
    // A file named like a skipped directory is still looked at.
    assert!(!walk_skips("build", false));
}

#[test]
fn config_file_names_in_order() {
    let names = turbo_test::launcher::config_names();
    assert_eq!(names.len(), 8);
    assert_eq!(names[0], "vitest.config.ts");
    assert_eq!(names[4], "vite.config.ts");
    assert_eq!(names[7], "vite.config.mjs");
}

#[test]
fn resolver_option_lists() {
    assert_eq!(resolver_extensions(), vec![".ts", ".tsx", ".mjs", ".js", ".jsx", ".cjs", ".json", ".node"]);
    let (c, m) = resolver_conditions(true);
    assert_eq!(c, vec!["require", "node", "default"]);
    assert_eq!(m, vec!["main", "module", "browser"]);
    let (c, m) = resolver_conditions(false);
    assert_eq!(c, vec!["import", "module", "browser", "default", "require"]);
    assert_eq!(m, vec!["module", "browser", "main"]);
}

#[test]
fn cjs_first_directory_step() {
    assert_eq!(vitest_markers().len(), 6);
    assert_eq!(jest_config_names()[4], "jest.config.json");
    // A vitest marker wins over any jest config.
    assert_eq!(cjs_first_dir(true, Some("module.exports = {}"), None), Some(false));
    // jest with the default (node) environment resolves CommonJS-first.
    assert_eq!(cjs_first_dir(false, Some("module.exports = { preset: 'ts-jest' }"), None), Some(true));
    assert_eq!(cjs_first_dir(false, Some("module.exports = { testEnvironment: 'jsdom' }"), None), Some(false));
    // A package.json decides only when it carries a jest block.
    assert_eq!(cjs_first_dir(false, None, Some("{\"name\": \"x\"}")), None);
    assert_eq!(cjs_first_dir(false, None, Some("{ jest: { testEnvironment: 'node' } }")), Some(true));
    assert_eq!(cjs_first_dir(false, None, Some("{ jest: { testEnvironment: 'jsdom' } }")), Some(false));
    assert_eq!(cjs_first_dir(false, None, None), None);
}

#[test]
fn tsconfig_decorator_metadata() {
    assert!(decorator_metadata_in("{\n  \"compilerOptions\": {\n    \"emitDecoratorMetadata\" : true\n  }\n}"));
    assert!(!decorator_metadata_in("{ \"compilerOptions\": { \"emitDecoratorMetadata\": false } }"));
    // A commented-out setting does not count.
    assert!(!decorator_metadata_in("{\n  // \"emitDecoratorMetadata\": true\n}"));
}

#[test]
fn with_extension_agrees_with_std() {
    let paths = [
        "a/b", "a/b/", "a/b.js", ".bashrc", "a/.", "a/..", "/", "", ".", "x.tar.gz", "a/b.cd/.", "...",
        "dir//", "a.", "./x", "/p/q.test.ts", "..", "a.bcd/",
    ];
    for p in paths {
        for e in ["ts", "", "d.ts"] {
            let want = std::path::Path::new(p).with_extension(e).to_string_lossy().into_owned();
            assert_eq!(with_extension(p, e), want, "{p:?} {e:?}");
        }
    }
    assert_eq!(with_extension("src/a/", "ts"), "src/a.ts");
    assert_eq!(with_extension("src/a.js", ""), "src/a");
}
