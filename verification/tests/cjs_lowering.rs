use turbo_test::bundler::{bundle_extensions, bundled_ref, wrap_module};
use turbo_test::esm_cjs::{
    assemble, assemble_module, bare_import, declared_exports, default_export, deps_enabled, enabled, export_star,
    export_star_as, has_module_syntax, import_var, local_export, lower_import, namespace_expr, quote_key,
    plan_module, reexport_from, rewrite_default_export, strict, Access, ExportEntry, ImportSpec, ModuleStmt, SourceRef,
    EXPORTS_OBJ, PREAMBLE,
};

fn s(v: &str) -> String {
    v.to_string()
}

fn view(a: &Option<Access>) -> Option<(String, String)> {
    a.as_ref().map(|x| (x.var.clone(), x.prop.clone()))
}

#[test]
fn switches_read_like_the_environment() {
    assert!(enabled(None));
    assert!(enabled(Some("1")));
    assert!(!enabled(Some("0")));
    assert!(!enabled(Some("")));
    assert!(deps_enabled(Some("yes")));
    assert!(!deps_enabled(Some("0")));
    assert!(!strict(None));
    assert!(!strict(Some("")));
    assert!(strict(Some("1")));
}

#[test]
fn import_variables() {
    assert_eq!(import_var("s", 1), "import_s_1");
    assert_eq!(import_var("@mui/material/Button/", 3), "import_Button_3");
    assert_eq!(import_var("./a-b.js", 2), "import_a_b_js_2");
    assert_eq!(import_var("$lib", 12), "import_$lib_12");
    assert_eq!(import_var("", 4), "import__4");
}

#[test]
fn object_keys() {
    assert_eq!(quote_key("a$b_1"), "a$b_1");
    assert_eq!(quote_key("_x"), "_x");
    assert_eq!(quote_key("2x"), "\"2x\"");
    assert_eq!(quote_key("a-b"), "\"a-b\"");
    assert_eq!(quote_key("a\"b"), "\"a\\\"b\"");
    assert_eq!(quote_key(""), "\"\"");
}

#[test]
fn named_imports_read_through_the_module_variable() {
    let specs = vec![
        ImportSpec::Named { imported: s("a"), local: s("a") },
        ImportSpec::Named { imported: s("b"), local: s("c") },
    ];
    let (line, acc) = lower_import("s", 1, &SourceRef::External, &specs);
    assert_eq!(line, "var import_s_1 = require(\"s\");");
    assert_eq!(view(&acc[0]), Some((s("import_s_1"), s("a"))));
    assert_eq!(view(&acc[1]), Some((s("import_s_1"), s("b"))));
}

#[test]
fn default_and_namespace_imports() {
    let (line, acc) = lower_import("s", 1, &SourceRef::External, &[ImportSpec::Default(s("D"))]);
    assert_eq!(line, "var import_s_1 = __toESM(require(\"s\"));");
    assert_eq!(view(&acc[0]), Some((s("import_s_1"), s("default"))));
    let (line, acc) = lower_import("s", 2, &SourceRef::External, &[ImportSpec::Namespace(s("ns"))]);
    assert_eq!(line, "var ns = __toESM(require(\"s\"));");
    assert_eq!(view(&acc[0]), None);
    assert_eq!(bare_import("s", 3, &SourceRef::External), "var import_s_3 = require(\"s\");");
}

#[test]
fn bundled_module_imports() {
    let esm = SourceRef::BundledEsm { id: s("m2") };
    let (line, acc) = lower_import("./x", 1, &esm, &[ImportSpec::Named { imported: s("f"), local: s("g") }]);
    assert_eq!(line, "init_m2();");
    assert_eq!(view(&acc[0]), Some((s("m2_exports"), s("f"))));
    let (line, _) = lower_import("./x", 1, &esm, &[ImportSpec::Namespace(s("x"))]);
    assert_eq!(line, "var x = (init_m2(), m2_exports);");
    let cjs = bundled_ref(4);
    assert!(matches!(&cjs, SourceRef::BundledCjs { id } if id == "m4"));
    let (line, _) = lower_import("./y", 5, &cjs, &[ImportSpec::Default(s("Y"))]);
    assert_eq!(line, "var import_y_5 = __toESM(require_m4());");
    assert_eq!(bare_import("./y", 5, &cjs), "require_m4();");
    assert_eq!(namespace_expr(&cjs, "./y", false), "require_m4()");
    // The id names the wrapper `wrap_module` defines.
    assert!(wrap_module(4, "x").starts_with("var require_m4 = __commonJS("));
}

#[test]
fn export_registrations() {
    let e = declared_exports(&[s("x"), s("fn")]);
    assert_eq!((e[0].name.as_str(), e[0].value_js.as_str()), ("x", "x"));
    assert_eq!((e[1].name.as_str(), e[1].value_js.as_str()), ("fn", "fn"));
    let d = default_export(None);
    assert_eq!((d.name.as_str(), d.value_js.as_str()), ("default", "__tt_default"));
    let d = default_export(Some("foo"));
    assert_eq!(d.value_js, "foo");
    let acc = Access { var: s("import_s_1"), prop: s("p") };
    assert_eq!(local_export("y", "x", Some(&acc)).value_js, "import_s_1.p");
    assert_eq!(local_export("y", "x", None).value_js, "x");
}

#[test]
fn reexports() {
    let (line, entries) = reexport_from("s", 1, &SourceRef::External, &[(s("a"), s("a")), (s("c"), s("b"))]);
    assert_eq!(line, "var import_s_1000001 = require(\"s\");");
    assert_eq!(entries[1].name, "c");
    assert_eq!(entries[1].value_js, "import_s_1000001.b");
    let (wrapped, _) = reexport_from("s", usize::MAX, &SourceRef::External, &[]);
    assert_eq!(wrapped, "var import_s_999999 = require(\"s\");");
    assert_eq!(
        export_star("s", &SourceRef::External, EXPORTS_OBJ),
        "__reExport(__tt_exports, require(\"s\"), module.exports);"
    );
    let (line, e) = export_star_as("s", 2, &SourceRef::External, "ns");
    assert_eq!(line, "var import_s_2 = __toESM(require(\"s\"));");
    assert_eq!((e.name.as_str(), e.value_js.as_str()), ("ns", "import_s_2"));
}

#[test]
fn module_assembly() {
    let exports = vec![
        ExportEntry { name: s("x"), value_js: s("x") },
        ExportEntry { name: s("a-b"), value_js: s("import_s_1.c") },
    ];
    let text = assemble_module(&[s("var import_s_1 = require(\"s\");")], &[s("__reExport(a, b);")], &exports, "const x = 1;\n");
    assert_eq!(
        text,
        "var __tt_exports = {};\n__export(__tt_exports, {\n  x: () => x,\n  \"a-b\": () => import_s_1.c,\n});\n\
module.exports = __toCommonJS(__tt_exports);\nvar import_s_1 = require(\"s\");\n__reExport(a, b);\nconst x = 1;\n"
    );
    let bare = assemble_module(&[], &[], &[], "f();");
    assert_eq!(bare, "var __tt_exports = {};\nmodule.exports = __toCommonJS(__tt_exports);\nf();");
    let full = assemble(&[], &[], &[], "f();");
    assert!(full.starts_with(PREAMBLE));
    assert!(full.ends_with(&bare));
    assert!(PREAMBLE.contains("var __toESM = "));
}

#[test]
fn default_rewrite_and_module_syntax() {
    assert_eq!(rewrite_default_export("export default 42;\n"), "var __tt_default = 42;\n");
    assert_eq!(rewrite_default_export("a();\nexport default (x) => x;"), "a();\nvar __tt_default = (x) => x;");
    assert_eq!(rewrite_default_export("f();"), "f();");
    assert!(!has_module_syntax(0, 0, 0, false));
    assert!(has_module_syntax(0, 0, 0, true));
    assert!(has_module_syntax(1, 0, 0, false));
    assert_eq!(bundle_extensions()[0], ".js");
}

#[test]
fn module_statements_are_planned_in_order() {
    let stmts = vec![
        ModuleStmt::Import {
            src: s("s"),
            sref: SourceRef::External,
            specs: Some(vec![ImportSpec::Default(s("d")), ImportSpec::Named { imported: s("a"), local: s("b") }]),
            syms: vec![Some(1), Some(2)],
        },
        ModuleStmt::ExportDefault { named: None },
        ModuleStmt::ExportLocal { specs: vec![(s("x"), s("b"), Some(2)), (s("y"), s("z"), None)] },
        ModuleStmt::ReExport { src: s("r"), sref: SourceRef::External, pairs: vec![(s("p"), s("q"))] },
        ModuleStmt::ExportAll { src: s("t"), sref: SourceRef::External, name: None },
        ModuleStmt::ExportAll { src: s("u"), sref: SourceRef::External, name: Some(s("ns")) },
        ModuleStmt::ExportDecl { names: vec![s("k")] },
        ModuleStmt::Import { src: s("v"), sref: SourceRef::External, specs: None, syms: vec![] },
        ModuleStmt::Other,
    ];
    let p = plan_module(&stmts, EXPORTS_OBJ);
    assert_eq!(
        p.requires,
        vec![
            s("var import_s_1 = __toESM(require(\"s\"));"),
            s("var import_r_1000003 = require(\"r\");"),
            s("var import_u_5 = __toESM(require(\"u\"));"),
            s("var import_v_7 = require(\"v\");"),
        ]
    );
    assert_eq!(p.re_exports, vec![s("__reExport(__tt_exports, require(\"t\"), module.exports);")]);
    let ex: Vec<(String, String)> = p.exports.iter().map(|e| (e.name.clone(), e.value_js.clone())).collect();
    assert_eq!(
        ex,
        vec![
            (s("default"), s("__tt_default")),
            (s("p"), s("import_r_1000003.q")),
            (s("ns"), s("import_u_5")),
            (s("k"), s("k")),
            (s("x"), s("import_s_1.a")),
            (s("y"), s("z")),
        ]
    );
    let im: Vec<(usize, String, String)> = p.imports.iter().map(|(k, a)| (*k, a.var.clone(), a.prop.clone())).collect();
    assert_eq!(im, vec![(1, s("import_s_1"), s("default")), (2, s("import_s_1"), s("a"))]);
    assert!(p.default_needs_rewrite);
}
