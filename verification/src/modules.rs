//! How the module loader classifies specifiers and files: Node builtins, stubbed assets,
//! CommonJS files, the react family, decorator use, lazily stubbed barrels, and the mock
//! specifiers and import names a source mentions.

use vstd::prelude::*;

use crate::launcher::{ends_with, ends_with_exec, starts_with, starts_with_exec};
use crate::text::{
    chars_eq, chars_of, contains_chars, contains_seq, rfind_chars, rfind_spec, slice_range,
    slice_skip, slice_take, split_char, split_spec, string_of, strs,
};
use crate::transform::{ext_in, extension, extension_spec};

verus! {

/// The Node builtin modules the runner provides.
pub open spec fn node_builtins() -> Seq<Seq<char>> {
    seq![
        "fs"@, "fs/promises"@, "path"@, "module"@, "os"@, "child_process"@, "url"@, "util"@,
        "events"@, "stream"@, "assert"@, "assert/strict"@, "perf_hooks"@, "crypto"@, "buffer"@,
        "querystring"@, "string_decoder"@, "timers"@, "timers/promises"@, "http"@, "http2"@,
        "https"@, "net"@, "tls"@, "zlib"@, "dns"@, "dns/promises"@, "tty"@, "constants"@,
        "dgram"@, "readline"@, "v8"@, "diagnostics_channel"@, "process"@, "async_hooks"@,
        "worker_threads"@, "vm"@, "inspector"@,
    ]
}

/// A specifier without its `node:` scheme.
pub open spec fn strip_node_scheme(s: Seq<char>) -> Seq<char> {
    if starts_with(s, "node:"@) {
        s.skip(5)
    } else {
        s
    }
}

fn in_list(s: &[char], list: &[&str]) -> (b: bool)
    ensures
        b == list@.map_values(|x: &str| x@).contains(s@),
{
    let ghost lv = list@.map_values(|x: &str| x@);
    let mut i: usize = 0;
    while i < list.len()
        invariant
            i <= list@.len(),
            lv == list@.map_values(|x: &str| x@),
            forall|j: int| 0 <= j < i ==> lv[j] != s@,
        decreases list@.len() - i,
    {
        if chars_eq(s, chars_of(list[i]).as_slice()) {
            assert(lv[i as int] == s@);
            return true;
        }
        i += 1;
    }
    false
}

/// Whether a specifier names a Node builtin (with or without `node:`).
pub fn is_node_builtin(spec: &str) -> (b: bool)
    ensures
        b == node_builtins().contains(strip_node_scheme(spec@)),
{
    let s = chars_of(spec);
    proof {
        reveal_strlit("node:");
    }
    let body: &[char] = if starts_with_exec(s.as_slice(), chars_of("node:").as_slice()) {
        slice_skip(s.as_slice(), 5)
    } else {
        s.as_slice()
    };
    let list = [
        "fs", "fs/promises", "path", "module", "os", "child_process", "url", "util", "events",
        "stream", "assert", "assert/strict", "perf_hooks", "crypto", "buffer", "querystring",
        "string_decoder", "timers", "timers/promises", "http", "http2", "https", "net", "tls",
        "zlib", "dns", "dns/promises", "tty", "constants", "dgram", "readline", "v8",
        "diagnostics_channel", "process", "async_hooks", "worker_threads", "vm", "inspector",
    ];
    assert(list@.map_values(|x: &str| x@) =~= node_builtins());
    in_list(body, &list)
}

/// Extensions of the non-JavaScript assets whose imports are stubbed.
pub open spec fn asset_exts() -> Seq<Seq<char>> {
    seq![
        "css"@, "scss"@, "sass"@, "less"@, "styl"@, "svg"@, "png"@, "jpg"@, "jpeg"@, "gif"@,
        "webp"@, "avif"@, "ico"@, "woff"@, "woff2"@, "ttf"@, "eot"@, "otf"@, "mp4"@, "webm"@,
        "wav"@, "mp3"@, "txt"@, "md"@,
    ]
}

/// Whether a file is a stubbed asset (by extension).
pub fn is_asset(path: &str) -> (b: bool)
    ensures
        b == ext_in(path@, asset_exts()),
{
    let list = [
        "css", "scss", "sass", "less", "styl", "svg", "png", "jpg", "jpeg", "gif", "webp", "avif",
        "ico", "woff", "woff2", "ttf", "eot", "otf", "mp4", "webm", "wav", "mp3", "txt", "md",
    ];
    assert(list@.map_values(|x: &str| x@) =~= asset_exts());
    match extension(path) {
        Some(e) => in_list(e.as_slice(), &list),
        None => false,
    }
}

/// Module system of a file.
#[derive(Clone, Copy, PartialEq, Eq, Structural, Debug)]
pub enum Kind {
    Esm,
    Cjs,
}

/// By extension: `.cjs` is CommonJS, anything else ESM.
pub fn kind_of(path: &str) -> (k: Kind)
    ensures
        k == (if extension_spec(path@) == Some("cjs"@) {
            Kind::Cjs
        } else {
            Kind::Esm
        }),
{
    match extension(path) {
        Some(e) => if chars_eq(e.as_slice(), chars_of("cjs").as_slice()) {
            Kind::Cjs
        } else {
            Kind::Esm
        },
        None => Kind::Esm,
    }
}

/// `s` without every trailing `/`.
pub open spec fn trim_slashes(s: Seq<char>) -> Seq<char>
    decreases s.len(),
{
    if s.len() > 0 && s.last() == '/' {
        trim_slashes(s.drop_last())
    } else {
        s
    }
}

/// The last path segment of a specifier (trailing slashes ignored).
pub open spec fn spec_basename_spec(spec: Seq<char>) -> Seq<char> {
    let t = trim_slashes(spec);
    match rfind_spec(t, seq!['/']) {
        Some(p) => t.skip(p + 1),
        None => t,
    }
}

pub fn spec_basename(spec: &str) -> (r: String)
    ensures
        r@ == spec_basename_spec(spec@),
{
    let s = chars_of(spec);
    let mut n = s.len();
    assert(s@.take(n as int) =~= s@);
    while n > 0 && s[n - 1] == '/'
        invariant
            n <= s@.len(),
            s@ == spec@,
            trim_slashes(spec@) == trim_slashes(s@.take(n as int)),
        decreases n,
    {
        assert(s@.take(n as int).drop_last() =~= s@.take(n - 1));
        n -= 1;
    }
    let t = slice_take(s.as_slice(), n);
    let slash: Vec<char> = vec!['/'];
    assert(slash@ =~= seq!['/']);
    match rfind_chars(t.as_slice(), slash.as_slice()) {
        Some(p) => string_of(slice_skip(t.as_slice(), p + 1)),
        None => string_of(t.as_slice()),
    }
}

/// The react family, which must stay a single shared instance.
pub open spec fn is_react_family_spec(p: Seq<char>) -> bool {
    ends_with(p, "/react"@) || p == "react"@ || contains_seq(p, "/react/"@) || contains_seq(
        p,
        "react-dom"@,
    ) || contains_seq(p, "react/jsx"@) || ends_with(p, "/scheduler"@) || p == "scheduler"@
}

pub fn is_react_family(spec_or_path: &str) -> (b: bool)
    ensures
        b == is_react_family_spec(spec_or_path@),
{
    let p = chars_of(spec_or_path);
    let p = p.as_slice();
    ends_with_exec(p, chars_of("/react").as_slice()) || chars_eq(p, chars_of("react").as_slice())
        || contains_chars(p, chars_of("/react/").as_slice()) || contains_chars(
        p,
        chars_of("react-dom").as_slice(),
    ) || contains_chars(p, chars_of("react/jsx").as_slice()) || ends_with_exec(
        p,
        chars_of("/scheduler").as_slice(),
    ) || chars_eq(p, chars_of("scheduler").as_slice())
}

/// A line that starts (after whitespace) with `@` and a letter, `_` or `$`.
pub open spec fn decorator_line(l: Seq<char>) -> bool {
    let t = crate::text::trim_start_spec(l);
    t.len() >= 2 && t[0] == '@' && (crate::text::is_ascii_alpha(t[1]) || t[1] == '_' || t[1] == '$')
}

/// Whether a source uses a decorator: a parameter decorator `(@`, or a line starting with
/// one.
pub open spec fn has_decorator_spec(src: Seq<char>) -> bool {
    contains_seq(src, "(@"@) || exists|i: int|
        0 <= i < crate::mocks::lines_spec(src).len() && decorator_line(
            #[trigger] crate::mocks::lines_spec(src)[i],
        )
}

fn decorator_line_exec(l: &[char]) -> (b: bool)
    ensures
        b == decorator_line(l@),
{
    let mut a: usize = 0;
    assert(l@.skip(0) =~= l@);
    while a < l.len() && crate::text::is_ws_exec(l[a])
        invariant
            a <= l.len(),
            crate::text::trim_start_spec(l@) == crate::text::trim_start_spec(l@.skip(a as int)),
        decreases l.len() - a,
    {
        assert(l@.skip(a as int).drop_first() =~= l@.skip(a + 1));
        a += 1;
    }
    let t = slice_skip(l, a);
    assert(crate::text::trim_start_spec(l@) == t@);
    t.len() >= 2 && t[0] == '@' && (('a' <= t[1] && t[1] <= 'z') || ('A' <= t[1] && t[1] <= 'Z')
        || t[1] == '_' || t[1] == '$')
}

pub fn file_has_decorator(src: &str) -> (b: bool)
    ensures
        b == has_decorator_spec(src@),
{
    let s = chars_of(src);
    if contains_chars(s.as_slice(), chars_of("(@").as_slice()) {
        return true;
    }
    let ls = crate::mocks::lines(s.as_slice());
    let ghost lsv = crate::mocks::lv(ls@);
    let mut i: usize = 0;
    while i < ls.len()
        invariant
            i <= ls@.len(),
            lsv == crate::mocks::lv(ls@),
            lsv == crate::mocks::lines_spec(src@),
            forall|j: int| 0 <= j < i ==> !decorator_line(#[trigger] lsv[j]),
        decreases ls@.len() - i,
    {
        assert(lsv[i as int] == ls@[i as int]@);
        if decorator_line_exec(ls[i].as_slice()) {
            return true;
        }
        i += 1;
    }
    false
}

} // verus!

verus! {

/// The barrels to stub lazily, from a comma list: trimmed, blanks dropped.
pub open spec fn stub_specs_list(parts: Seq<Seq<char>>) -> Seq<Seq<char>>
    decreases parts.len(),
{
    if parts.len() == 0 {
        Seq::empty()
    } else {
        let prev = stub_specs_list(parts.drop_last());
        let t = crate::text::trim_spec(parts.last());
        if t.len() > 0 {
            prev.push(t)
        } else {
            prev
        }
    }
}

pub fn parse_stub_specs(s: &str) -> (r: Vec<String>)
    ensures
        strs(r@) == stub_specs_list(split_spec(s@, ',')),
{
    let c = chars_of(s);
    let parts = split_char(c.as_slice(), ',');
    let ghost ps = split_spec(s@, ',');
    let mut out: Vec<String> = Vec::new();
    let mut i: usize = 0;
    assert(ps.take(0) =~= Seq::<Seq<char>>::empty());
    while i < parts.len()
        invariant
            i <= parts@.len() == ps.len(),
            ps == split_spec(s@, ','),
            forall|k: int| 0 <= k < parts@.len() ==> #[trigger] parts@[k]@ == ps[k],
            strs(out@) == stub_specs_list(ps.take(i as int)),
        decreases parts@.len() - i,
    {
        assert(ps.take(i + 1).drop_last() =~= ps.take(i as int));
        let t = crate::text::trim_chars(parts[i].as_slice());
        if t.len() > 0 {
            let ghost b = strs(out@);
            out.push(string_of(t.as_slice()));
            assert(strs(out@) =~= b.push(t@));
        }
        i += 1;
    }
    assert(ps.take(ps.len() as int) =~= ps);
    out
}

/// The default export name of a stubbed subpath: its last segment without `.js`.
pub open spec fn stub_default_name(rest: Seq<char>) -> Seq<char> {
    let base = match rfind_spec(rest, seq!['/']) {
        Some(p) => rest.skip(p + 1),
        None => rest,
    };
    if ends_with(base, ".js"@) {
        base.take(base.len() - 3)
    } else {
        base
    }
}

/// Whether a specifier is (a subpath of) a stubbed barrel, trying the barrels in order:
/// `Some(None)` for the barrel itself, `Some(Some(name))` for a subpath with default export
/// `name`.
pub open spec fn lazy_stub_spec(spec: Seq<char>, barrels: Seq<Seq<char>>) -> Option<Option<Seq<char>>>
    decreases barrels.len(),
{
    if barrels.len() == 0 {
        None
    } else {
        let e = barrels[0];
        if spec == e {
            Some(None)
        } else if starts_with(spec, e + "/"@) {
            Some(Some(stub_default_name(spec.skip(e.len() as int + 1))))
        } else {
            lazy_stub_spec(spec, barrels.drop_first())
        }
    }
}

/// The stub key (the specifier) and default export name of a lazily stubbed barrel (see
/// `lazy_stub_spec`).
pub fn lazy_stub_match(spec: &str, barrels: &[String]) -> (r: Option<(String, Option<String>)>)
    ensures
        match r {
            None => lazy_stub_spec(spec@, strs(barrels@)) is None,
            Some(p) => p.0@ == spec@ && lazy_stub_spec(spec@, strs(barrels@)) == Some(
                crate::coverage::opt_string(p.1),
            ),
        },
{
    let s = chars_of(spec);
    let ghost bs = strs(barrels@);
    let mut i: usize = 0;
    proof {
        reveal_strlit("/");
        reveal_strlit(".js");
    }
    assert(bs.skip(0) =~= bs);
    while i < barrels.len()
        invariant
            i <= barrels@.len(),
            bs == strs(barrels@),
            s@ == spec@,
            lazy_stub_spec(spec@, bs) == lazy_stub_spec(spec@, bs.skip(i as int)),
        decreases barrels@.len() - i,
    {
        proof {
            reveal_strlit("/");
            reveal_strlit(".js");
        }
        assert(bs.skip(i as int)[0] == barrels@[i as int]@);
        assert(bs.skip(i as int).drop_first() =~= bs.skip(i + 1));
        let e = chars_of(barrels[i].as_str());
        if chars_eq(s.as_slice(), e.as_slice()) {
            return Some((spec.to_owned(), None));
        }
        let mut es: Vec<char> = Vec::new();
        crate::text::extend_chars(&mut es, e.as_slice());
        es.push('/');
        assert(es@ =~= e@ + "/"@);
        if starts_with_exec(s.as_slice(), es.as_slice()) {
            let rest = slice_skip(s.as_slice(), es.len());
            let slash: Vec<char> = vec!['/'];
            assert(slash@ =~= seq!['/']);
            let base: &[char] = match rfind_chars(rest, slash.as_slice()) {
                Some(p) => slice_skip(rest, p + 1),
                None => rest,
            };
            let name = if ends_with_exec(base, chars_of(".js").as_slice()) {
                slice_take(base, base.len() - 3)
            } else {
                slice_take(base, base.len())
            };
            assert(base@.take(base@.len() as int) =~= base@);
            return Some((spec.to_owned(), Some(string_of(name.as_slice()))));
        }
        i += 1;
    }
    None
}

/// The JavaScript of one lazily stubbed barrel's namespace: a `Proxy` that mints (and
/// caches) a `forwardRef` SVG icon component per export read; `default_js` is the quoted
/// default icon name or `null`.
pub open spec fn stub_factory_spec(default_js: Seq<char>) -> Seq<char> {
    "(function() {\n  var dir = globalThis.__ttDir || globalThis.__cwd || '.';\n  var React = globalThis.__nativeRequire(dir, 'react', false);\n  if (React && React.default && typeof React.forwardRef !== 'function') React = React.default;\n  var cache = Object.create(null);\n  function make(name) {\n    var C = React.forwardRef(function(props, ref) {\n      props = props || {};\n      var rest = {};\n      for (var k in props) { if (k !== 'data-testid' && k !== 'className' && k !== 'sx') rest[k] = props[k]; }\n      return React.createElement('svg', Object.assign({\n        ref: ref,\n        'data-testid': props['data-testid'] || (name + 'Icon'),\n        'data-icon': name,\n        className: ('MuiSvgIcon-root ' + (props.className || '')).trim(),\n        viewBox: '0 0 24 24', width: '1em', height: '1em',\n        focusable: 'false', 'aria-hidden': 'true'\n      }, rest));\n    });\n    C.displayName = name;\n    C.muiName = 'SvgIcon';\n    return C;\n  }\n  var DEFAULT_NAME = "@
        + default_js
        + ";\n  return new Proxy({}, {\n    get: function(t, k) {\n      if (k === '__esModule') return false;\n      if (typeof k === 'symbol') return undefined;\n      if (k === '__turboLazyStub') return true;\n      if (k === 'default') return cache['__default'] || (cache['__default'] = make(DEFAULT_NAME || 'default'));\n      return cache[k] || (cache[k] = make(k));\n    },\n    set: function(t, k, v) { cache[k] = v; return true; },\n    has: function() { return true; },\n    defineProperty: function() { return true; },\n    deleteProperty: function() { return true; },\n    getOwnPropertyDescriptor: function() { return undefined; },\n    ownKeys: function() { return []; }\n  });\n})()"@
}

pub fn lazy_stub_factory_src(default_js: &str) -> (r: String)
    ensures
        r@ == stub_factory_spec(default_js@),
{
    let mut v = chars_of("(function() {\n  var dir = globalThis.__ttDir || globalThis.__cwd || '.';\n  var React = globalThis.__nativeRequire(dir, 'react', false);\n  if (React && React.default && typeof React.forwardRef !== 'function') React = React.default;\n  var cache = Object.create(null);\n  function make(name) {\n    var C = React.forwardRef(function(props, ref) {\n      props = props || {};\n      var rest = {};\n      for (var k in props) { if (k !== 'data-testid' && k !== 'className' && k !== 'sx') rest[k] = props[k]; }\n      return React.createElement('svg', Object.assign({\n        ref: ref,\n        'data-testid': props['data-testid'] || (name + 'Icon'),\n        'data-icon': name,\n        className: ('MuiSvgIcon-root ' + (props.className || '')).trim(),\n        viewBox: '0 0 24 24', width: '1em', height: '1em',\n        focusable: 'false', 'aria-hidden': 'true'\n      }, rest));\n    });\n    C.displayName = name;\n    C.muiName = 'SvgIcon';\n    return C;\n  }\n  var DEFAULT_NAME = ");
    crate::text::extend_chars(&mut v, chars_of(default_js).as_slice());
    crate::text::extend_chars(&mut v, chars_of(";\n  return new Proxy({}, {\n    get: function(t, k) {\n      if (k === '__esModule') return false;\n      if (typeof k === 'symbol') return undefined;\n      if (k === '__turboLazyStub') return true;\n      if (k === 'default') return cache['__default'] || (cache['__default'] = make(DEFAULT_NAME || 'default'));\n      return cache[k] || (cache[k] = make(k));\n    },\n    set: function(t, k, v) { cache[k] = v; return true; },\n    has: function() { return true; },\n    defineProperty: function() { return true; },\n    deleteProperty: function() { return true; },\n    getOwnPropertyDescriptor: function() { return undefined; },\n    ownKeys: function() { return []; }\n  });\n})()").as_slice());
    string_of(v.as_slice())
}

} // verus!

verus! {

/// The module type a `package.json` declares.
#[derive(Clone, Copy, PartialEq, Eq, Structural, Debug)]
pub enum PkgType {
    Module,
    CommonJs,
}

/// Whether a `package.json` text declares `"type": "module"` (with or without the space).
pub open spec fn declares_module(t: Seq<char>) -> bool {
    contains_seq(t, "\"type\": \"module\""@) || contains_seq(t, "\"type\":\"module\""@)
}

/// Whether a `package.json` text declares `"type": "commonjs"`.
pub open spec fn declares_commonjs(t: Seq<char>) -> bool {
    contains_seq(t, "\"type\": \"commonjs\""@) || contains_seq(t, "\"type\":\"commonjs\""@)
}

pub open spec fn pkg_type_spec(t: Seq<char>) -> Option<PkgType> {
    if declares_module(t) {
        Some(PkgType::Module)
    } else if declares_commonjs(t) {
        Some(PkgType::CommonJs)
    } else {
        None
    }
}

fn declares_module_exec(t: &[char]) -> (b: bool)
    ensures
        b == declares_module(t@),
{
    contains_chars(t, chars_of("\"type\": \"module\"").as_slice()) || contains_chars(
        t,
        chars_of("\"type\":\"module\"").as_slice(),
    )
}

/// The module type a `package.json` declares, if it declares one.
pub fn pkg_type_of(text: &str) -> (r: Option<PkgType>)
    ensures
        r == pkg_type_spec(text@),
{
    let t = chars_of(text);
    if declares_module_exec(t.as_slice()) {
        Some(PkgType::Module)
    } else if contains_chars(t.as_slice(), chars_of("\"type\": \"commonjs\"").as_slice())
        || contains_chars(t.as_slice(), chars_of("\"type\":\"commonjs\"").as_slice()) {
        Some(PkgType::CommonJs)
    } else {
        None
    }
}

/// Extensions that are ES modules whatever the package says.
pub open spec fn esm_exts() -> Seq<Seq<char>> {
    seq!["mjs"@, "mts"@, "ts"@, "tsx"@, "jsx"@]
}

/// ESM syntax seen in a source.
pub open spec fn esm_syntax(src: Seq<char>) -> bool {
    crate::text::contains_any_spec(
        src,
        seq!["import "@, "import{"@, "export "@, "export{"@, "export*"@, "export default"@],
    )
}

/// CommonJS syntax seen in a source.
pub open spec fn cjs_syntax(src: Seq<char>) -> bool {
    crate::text::contains_any_spec(
        src,
        seq!["module.exports"@, "exports."@, "exports["@, "require("@],
    )
}

/// Module kind of a resolved file (Node's rule): `.cjs` is CommonJS; `.mjs`, `.mts`, `.ts`,
/// `.tsx`, `.jsx` are ESM; otherwise the nearest `package.json` type decides (`pkg`), and
/// without one the source is sniffed: CommonJS only when it shows CommonJS syntax and no ESM
/// syntax.
pub open spec fn detect_kind_spec(path: Seq<char>, pkg: Option<PkgType>, src: Seq<char>) -> Kind {
    if extension_spec(path) == Some("cjs"@) {
        Kind::Cjs
    } else if ext_in(path, esm_exts()) {
        Kind::Esm
    } else {
        match pkg {
            Some(PkgType::Module) => Kind::Esm,
            Some(PkgType::CommonJs) => Kind::Cjs,
            None => if cjs_syntax(src) && !esm_syntax(src) {
                Kind::Cjs
            } else {
                Kind::Esm
            },
        }
    }
}

pub fn detect_kind(path: &str, pkg: Option<PkgType>, src: &str) -> (k: Kind)
    ensures
        k == detect_kind_spec(path@, pkg, src@),
{
    if kind_of(path) == Kind::Cjs {
        return Kind::Cjs;
    }
    let esm = ["mjs", "mts", "ts", "tsx", "jsx"];
    assert(esm@.map_values(|x: &str| x@) =~= esm_exts());
    if crate::transform::ext_is_one_of(path, &esm) {
        return Kind::Esm;
    }
    match pkg {
        Some(PkgType::Module) => Kind::Esm,
        Some(PkgType::CommonJs) => Kind::Cjs,
        None => {
            let s = chars_of(src);
            let e = ["import ", "import{", "export ", "export{", "export*", "export default"];
            let c = ["module.exports", "exports.", "exports[", "require("];
            assert(e@.map_values(|x: &str| x@) =~= seq![
                "import "@,
                "import{"@,
                "export "@,
                "export{"@,
                "export*"@,
                "export default"@,
            ]);
            assert(c@.map_values(|x: &str| x@) =~= seq![
                "module.exports"@,
                "exports."@,
                "exports["@,
                "require("@,
            ]);
            let is_esm = crate::text::contains_any(s.as_slice(), &e);
            let is_cjs = crate::text::contains_any(s.as_slice(), &c);
            if is_cjs && !is_esm {
                Kind::Cjs
            } else {
                Kind::Esm
            }
        },
    }
}

/// Whether a file is an ES module for resolution purposes: by extension, and for other
/// files by the nearest readable `package.json` (`pkg_text`) declaring `"type": "module"`.
pub open spec fn is_esm_module_spec(path: Seq<char>, pkg_text: Option<Seq<char>>) -> bool {
    if ext_in(path, esm_exts()) {
        true
    } else if ext_in(path, seq!["cjs"@, "cts"@]) {
        false
    } else {
        match pkg_text {
            Some(t) => declares_module(t),
            None => false,
        }
    }
}

pub fn is_esm_module(path: &str, pkg_text: Option<&str>) -> (b: bool)
    ensures
        b == is_esm_module_spec(path@, match pkg_text {
            Some(t) => Some(t@),
            None => None,
        }),
{
    let esm = ["mjs", "mts", "ts", "tsx", "jsx"];
    assert(esm@.map_values(|x: &str| x@) =~= esm_exts());
    if crate::transform::ext_is_one_of(path, &esm) {
        return true;
    }
    let cjs = ["cjs", "cts"];
    assert(cjs@.map_values(|x: &str| x@) =~= seq!["cjs"@, "cts"@]);
    if crate::transform::ext_is_one_of(path, &cjs) {
        return false;
    }
    match pkg_text {
        Some(t) => declares_module_exec(chars_of(t).as_slice()),
        None => false,
    }
}

/// What marks a source as needing a DOM.
pub open spec fn dom_markers() -> Seq<Seq<char>> {
    seq![
        "@testing-library"@, "react-dom"@, "ReactDOM"@, "document"@, "window."@,
        "getComputedStyle"@, "happy-dom"@, "jsdom"@, "@vitest-environment"@,
    ]
}

/// Whether a test file needs a DOM environment: `.tsx`/`.jsx` files always, others when the
/// source mentions DOM use (pure-logic tests keep clean globals).
pub open spec fn needs_dom_spec(path: Seq<char>, src: Seq<char>) -> bool {
    ext_in(path, seq!["tsx"@, "jsx"@]) || crate::text::contains_any_spec(src, dom_markers())
}

/// A test file needs a DOM exactly when it is a `.tsx`/`.jsx` file or its source mentions
/// one of `@testing-library`, `react-dom`, `ReactDOM`, `document`, `window.`,
/// `getComputedStyle`, `happy-dom`, `jsdom` or `@vitest-environment`.
pub proof fn law_dom_need(path: Seq<char>, src: Seq<char>)
    ensures
        needs_dom_spec(path, src) <==> (ext_in(path, seq!["tsx"@, "jsx"@])
            || crate::text::contains_seq(src, "@testing-library"@)
            || crate::text::contains_seq(src, "react-dom"@)
            || crate::text::contains_seq(src, "ReactDOM"@)
            || crate::text::contains_seq(src, "document"@)
            || crate::text::contains_seq(src, "window."@)
            || crate::text::contains_seq(src, "getComputedStyle"@)
            || crate::text::contains_seq(src, "happy-dom"@)
            || crate::text::contains_seq(src, "jsdom"@)
            || crate::text::contains_seq(src, "@vitest-environment"@)),
{
    let m = dom_markers();
    assert(m[0] == "@testing-library"@);
    assert(m[1] == "react-dom"@);
    assert(m[2] == "ReactDOM"@);
    assert(m[3] == "document"@);
    assert(m[4] == "window."@);
    assert(m[5] == "getComputedStyle"@);
    assert(m[6] == "happy-dom"@);
    assert(m[7] == "jsdom"@);
    assert(m[8] == "@vitest-environment"@);
    assert(m.len() == 9);
}

pub fn needs_dom(path: &str, src: &str) -> (b: bool)
    ensures
        b == needs_dom_spec(path@, src@),
{
    let x = ["tsx", "jsx"];
    assert(x@.map_values(|v: &str| v@) =~= seq!["tsx"@, "jsx"@]);
    if crate::transform::ext_is_one_of(path, &x) {
        return true;
    }
    let m = [
        "@testing-library", "react-dom", "ReactDOM", "document", "window.", "getComputedStyle",
        "happy-dom", "jsdom", "@vitest-environment",
    ];
    assert(m@.map_values(|v: &str| v@) =~= dom_markers());
    crate::text::contains_any(chars_of(src).as_slice(), &m)
}

} // verus!

verus! {

/// The calls whose first argument names a mocked module.
pub open spec fn mock_kws() -> Seq<Seq<char>> {
    seq!["vi.mock("@, "vi.doMock("@, "jest.mock("@, "jest.doMock("@]
}

/// `out` with `x` appended unless already present.
pub open spec fn push_unique(out: Seq<Seq<char>>, x: Seq<char>) -> Seq<Seq<char>> {
    if out.contains(x) {
        out
    } else {
        out.push(x)
    }
}

/// The quoted string (`'`, `"` or backtick) that starts, after whitespace, at `start`.
pub open spec fn quoted_after(src: Seq<char>, start: int) -> Option<Seq<char>> {
    let rest = crate::text::trim_start_spec(src.skip(start));
    if rest.len() > 0 && crate::config::is_quote3(rest[0]) {
        match crate::text::find_from(rest.skip(1), seq![rest[0]], 0) {
            Some(e) => Some(rest.skip(1).take(e)),
            None => None,
        }
    } else {
        None
    }
}

/// The quoted specifiers of the calls `kw` from index `i` on, added to `out` in order.
pub open spec fn specs_from(src: Seq<char>, kw: Seq<char>, i: int, out: Seq<Seq<char>>) -> Seq<
    Seq<char>,
>
    decreases src.len() + 1 - i,
{
    match crate::text::find_from(src, kw, i) {
        None => out,
        Some(p) => {
            let start = p + kw.len();
            let out2 = match quoted_after(src, start) {
                Some(q) => push_unique(out, q),
                None => out,
            };
            if i < start <= src.len() {
                specs_from(src, kw, start, out2)
            } else {
                out2
            }
        },
    }
}

/// The distinct string-literal specifiers of a source's `vi.mock`/`vi.doMock`/`jest.mock`/
/// `jest.doMock` calls: those of each call kind in turn, each kept at its first sighting.
pub open spec fn mock_specifiers_spec(src: Seq<char>) -> Seq<Seq<char>> {
    let k = mock_kws();
    specs_from(
        src,
        k[3],
        0,
        specs_from(src, k[2], 0, specs_from(src, k[1], 0, specs_from(src, k[0], 0, Seq::empty()))),
    )
}

fn quoted_after_exec(src: &[char], start: usize) -> (r: Option<Vec<char>>)
    requires
        start <= src.len(),
    ensures
        match r {
            Some(v) => quoted_after(src@, start as int) == Some(v@),
            None => quoted_after(src@, start as int) is None,
        },
{
    let a = crate::text::trim_start_at(src, start);
    let rest = slice_skip(src, a);
    if rest.len() == 0 {
        return None;
    }
    let q = rest[0];
    if !(q == '\'' || q == '"' || q == '`') {
        return None;
    }
    let body = slice_skip(rest, 1);
    let qv: Vec<char> = vec![q];
    assert(qv@ =~= seq![rest@[0]]);
    proof {
        crate::text::lemma_find_from(body@, qv@, 0);
    }
    match crate::text::find_at(body, qv.as_slice(), 0) {
        Some(e) => Some(slice_take(body, e)),
        None => None,
    }
}

fn push_unique_exec(out: &mut Vec<Vec<char>>, x: Vec<char>)
    ensures
        crate::mocks::lv(final(out)@) == push_unique(crate::mocks::lv(old(out)@), x@),
{
    let ghost ov = crate::mocks::lv(out@);
    let mut i: usize = 0;
    while i < out.len()
        invariant
            i <= out@.len(),
            ov == crate::mocks::lv(out@),
            forall|j: int| 0 <= j < i ==> ov[j] != x@,
        decreases out@.len() - i,
    {
        if chars_eq(out[i].as_slice(), x.as_slice()) {
            assert(ov[i as int] == x@);
            assert(ov.contains(x@));
            return;
        }
        i += 1;
    }
    assert(!ov.contains(x@));
    out.push(x);
    assert(crate::mocks::lv(out@) =~= ov.push(x@));
}

fn specs_from_exec(src: &[char], kw: &[char], out: &mut Vec<Vec<char>>)
    requires
        kw@.len() > 0,
    ensures
        crate::mocks::lv(final(out)@) == specs_from(src@, kw@, 0, crate::mocks::lv(old(out)@)),
{
    let ghost total = specs_from(src@, kw@, 0, crate::mocks::lv(out@));
    let mut i: usize = 0;
    loop
        invariant
            i <= src@.len(),
            kw@.len() > 0,
            total == specs_from(src@, kw@, 0, crate::mocks::lv(old(out)@)),
            total == specs_from(src@, kw@, i as int, crate::mocks::lv(out@)),
        decreases src@.len() - i,
    {
        match crate::text::find_at(src, kw, i) {
            None => return,
            Some(p) => {
                proof {
                    crate::text::lemma_find_from(src@, kw@, i as int);
                }
                let start = p + kw.len();
                match quoted_after_exec(src, start) {
                    Some(q) => push_unique_exec(out, q),
                    None => {},
                }
                i = start;
            },
        }
    }
}

/// The distinct specifiers a source mocks, in the order `mock_specifiers_spec` gives.
pub fn mock_specifiers(src: &str) -> (r: Vec<String>)
    ensures
        strs(r@) == mock_specifiers_spec(src@),
{
    let s = chars_of(src);
    let mut out: Vec<Vec<char>> = Vec::new();
    let kws = ["vi.mock(", "vi.doMock(", "jest.mock(", "jest.doMock("];
    proof {
        reveal_strlit("vi.mock(");
        reveal_strlit("vi.doMock(");
        reveal_strlit("jest.mock(");
        reveal_strlit("jest.doMock(");
    }
    assert(crate::mocks::lv(out@) =~= Seq::<Seq<char>>::empty());
    specs_from_exec(s.as_slice(), chars_of(kws[0]).as_slice(), &mut out);
    specs_from_exec(s.as_slice(), chars_of(kws[1]).as_slice(), &mut out);
    specs_from_exec(s.as_slice(), chars_of(kws[2]).as_slice(), &mut out);
    specs_from_exec(s.as_slice(), chars_of(kws[3]).as_slice(), &mut out);
    let mut r: Vec<String> = Vec::new();
    let mut i: usize = 0;
    let ghost ov = crate::mocks::lv(out@);
    while i < out.len()
        invariant
            i <= out@.len(),
            ov == crate::mocks::lv(out@),
            strs(r@) == ov.take(i as int),
        decreases out@.len() - i,
    {
        let ghost b = strs(r@);
        r.push(string_of(out[i].as_slice()));
        assert(strs(r@) =~= b.push(ov[i as int]));
        assert(ov.take(i + 1) =~= ov.take(i as int).push(ov[i as int]));
        i += 1;
    }
    assert(ov.take(out@.len() as int) =~= ov);
    r
}

/// The key the builtin `vitest` module is registered under.
pub fn vitest_key() -> (r: String)
    ensures
        r@ == "<builtin:vitest>"@,
{
    string_of(chars_of("<builtin:vitest>").as_slice())
}

} // verus!

verus! {

/// The leading whitespace-free run of `t` (its first whitespace-separated token when `t`
/// is trimmed).
pub open spec fn first_token(t: Seq<char>) -> Seq<char>
    decreases t.len(),
{
    if t.len() == 0 || crate::text::is_ws(t[0]) {
        Seq::empty()
    } else {
        seq![t[0]] + first_token(t.drop_first())
    }
}

/// A local binding name: letters, digits, `_` and `$` only.
pub open spec fn is_name(n: Seq<char>) -> bool {
    n.len() > 0 && forall|k: int| 0 <= k < n.len() ==> crate::mocks::name_char(#[trigger] n[k])
}

/// The imported names of an import clause's comma-separated parts (`a`, and `b` for
/// `b as c`).
pub open spec fn import_names(parts: Seq<Seq<char>>) -> Seq<Seq<char>>
    decreases parts.len(),
{
    if parts.len() == 0 {
        Seq::empty()
    } else {
        let prev = import_names(parts.drop_last());
        let n = first_token(crate::text::trim_spec(parts.last()));
        if is_name(n) {
            prev.push(n)
        } else {
            prev
        }
    }
}

/// The names of the import's own `{ ... }` clause: the one that ends right before its
/// `from` (an import without such a clause names nothing).
pub open spec fn clause_names(head: Seq<char>) -> Seq<Seq<char>> {
    let h = crate::text::trim_spec(head);
    if h.len() > 0 && h.last() == '}' {
        match rfind_spec(h.take(h.len() - 1), seq!['{']) {
            None => Seq::empty(),
            Some(open) => import_names(split_spec(h.subrange(open + 1, h.len() - 1), ',')),
        }
    } else {
        Seq::empty()
    }
}

/// The names imported through each occurrence of `needle` from index `search` on.
pub open spec fn named_from(text: Seq<char>, needle: Seq<char>, search: int) -> Seq<Seq<char>>
    decreases text.len() + 1 - search,
{
    match crate::text::find_from(text, needle, search) {
        None => Seq::empty(),
        Some(at) => clause_names(text.take(at)) + if search < at + needle.len() <= text.len() {
            named_from(text, needle, at + needle.len())
        } else {
            Seq::empty()
        },
    }
}

/// The names a bundle imports from the module at `abs`: those of `from"abs"` imports, then
/// those of `from "abs"` imports.
pub open spec fn named_imports_spec(text: Seq<char>, abs: Seq<char>) -> Seq<Seq<char>> {
    named_from(text, "from\""@ + abs + "\""@, 0) + named_from(text, "from \""@ + abs + "\""@, 0)
}

fn first_token_exec(t: &[char]) -> (r: Vec<char>)
    ensures
        r@ == first_token(t@),
{
    let mut k: usize = 0;
    assert(t@.skip(0) =~= t@);
    assert(t@.take(0) + first_token(t@) =~= first_token(t@));
    while k < t.len() && !crate::text::is_ws_exec(t[k])
        invariant
            k <= t@.len(),
            first_token(t@) == t@.take(k as int) + first_token(t@.skip(k as int)),
        decreases t.len() - k,
    {
        assert(t@.skip(k as int)[0] == t@[k as int]);
        assert(t@.skip(k as int).drop_first() =~= t@.skip(k + 1));
        assert(t@.take(k + 1) =~= t@.take(k as int) + seq![t@[k as int]]);
        k += 1;
    }
    assert(first_token(t@.skip(k as int)) =~= Seq::<char>::empty());
    assert(t@.take(k as int) + Seq::<char>::empty() =~= t@.take(k as int));
    slice_take(t, k)
}

fn is_name_exec(n: &[char]) -> (b: bool)
    ensures
        b == is_name(n@),
{
    if n.len() == 0 {
        return false;
    }
    let mut k: usize = 0;
    while k < n.len()
        invariant
            k <= n@.len(),
            forall|j: int| 0 <= j < k ==> crate::mocks::name_char(#[trigger] n@[j]),
        decreases n@.len() - k,
    {
        let c = n[k];
        if !(crate::mocks::is_alphanumeric(c) || c == '_' || c == '$') {
            return false;
        }
        k += 1;
    }
    true
}

fn clause_names_exec(head: &[char], out: &mut Vec<String>)
    ensures
        strs(final(out)@) == strs(old(out)@) + clause_names(head@),
{
    let h = crate::text::trim_chars(head);
    let op: Vec<char> = vec!['{'];
    assert(op@ =~= seq!['{']);
    if h.len() == 0 || h[h.len() - 1] != '}' {
        assert(strs(out@) + Seq::<Seq<char>>::empty() =~= strs(out@));
        return;
    }
    let close = h.len() - 1;
    let before = slice_take(h.as_slice(), close);
    let open = match rfind_chars(before.as_slice(), op.as_slice()) {
        Some(o) => o,
        None => {
            assert(strs(out@) + Seq::<Seq<char>>::empty() =~= strs(out@));
            return;
        },
    };
    let inner = slice_range(h.as_slice(), open + 1, close);
    let parts = split_char(inner.as_slice(), ',');
    let ghost ps = split_spec(inner@, ',');
    let ghost base = strs(out@);
    let mut i: usize = 0;
    assert(ps.take(0) =~= Seq::<Seq<char>>::empty());
    assert(strs(out@) =~= base + import_names(ps.take(0)));
    while i < parts.len()
        invariant
            i <= parts@.len() == ps.len(),
            ps == split_spec(inner@, ','),
            forall|k: int| 0 <= k < parts@.len() ==> #[trigger] parts@[k]@ == ps[k],
            strs(out@) == base + import_names(ps.take(i as int)),
        decreases parts@.len() - i,
    {
        assert(ps.take(i + 1).drop_last() =~= ps.take(i as int));
        let t = crate::text::trim_chars(parts[i].as_slice());
        let n = first_token_exec(t.as_slice());
        if is_name_exec(n.as_slice()) {
            let ghost b = strs(out@);
            out.push(string_of(n.as_slice()));
            assert(strs(out@) =~= b.push(n@));
        }
        i += 1;
    }
    assert(ps.take(ps.len() as int) =~= ps);
}

fn named_from_exec(text: &[char], needle: &[char], out: &mut Vec<String>)
    requires
        needle@.len() > 0,
    ensures
        strs(final(out)@) == strs(old(out)@) + named_from(text@, needle@, 0),
{
    let ghost total = strs(out@) + named_from(text@, needle@, 0);
    let mut search: usize = 0;
    loop
        invariant
            search <= text@.len(),
            needle@.len() > 0,
            total == strs(old(out)@) + named_from(text@, needle@, 0),
            total == strs(out@) + named_from(text@, needle@, search as int),
        decreases text@.len() - search,
    {
        match crate::text::find_at(text, needle, search) {
            None => {
                assert(strs(out@) + Seq::<Seq<char>>::empty() =~= strs(out@));
                return;
            },
            Some(at) => {
                proof {
                    crate::text::lemma_find_from(text@, needle@, search as int);
                }
                let ghost before = strs(out@);
                let head = slice_take(text, at);
                clause_names_exec(head.as_slice(), out);
                let ghost rest = named_from(text@, needle@, at + needle@.len());
                assert(before + (clause_names(text@.take(at as int)) + rest) =~= strs(out@) + rest);
                search = at + needle.len();
            },
        }
    }
}

/// The names a bundle imports from the module at `abs` (see `named_imports_spec`), so a
/// mock can expose them even where its factory left them out.
pub fn collect_named_imports(text: &str, abs: &str) -> (r: Vec<String>)
    ensures
        strs(r@) == named_imports_spec(text@, abs@),
{
    let t = chars_of(text);
    let a = chars_of(abs);
    let mut n1: Vec<char> = chars_of("from\"");
    crate::text::extend_chars(&mut n1, a.as_slice());
    n1.push('"');
    let mut n2: Vec<char> = chars_of("from \"");
    crate::text::extend_chars(&mut n2, a.as_slice());
    n2.push('"');
    proof {
        reveal_strlit("from\"");
        reveal_strlit("from \"");
        reveal_strlit("\"");
    }
    assert(n1@ =~= "from\""@ + abs@ + "\""@);
    assert(n2@ =~= "from \""@ + abs@ + "\""@);
    let mut out: Vec<String> = Vec::new();
    assert(strs(out@) =~= Seq::<Seq<char>>::empty());
    named_from_exec(t.as_slice(), n1.as_slice(), &mut out);
    named_from_exec(t.as_slice(), n2.as_slice(), &mut out);
    assert(Seq::<Seq<char>>::empty() + named_from(t@, n1@, 0) =~= named_from(t@, n1@, 0));
    out
}

} // verus!

verus! {

/// The larger of two optional positions.
pub open spec fn opt_max(a: Option<int>, b: Option<int>) -> Option<int> {
    match (a, b) {
        (Some(x), Some(y)) => Some(if x >= y { x } else { y }),
        (Some(x), None) => Some(x),
        (None, y) => y,
    }
}

/// Where the declaration (`const `, `let ` or `var `) nearest before a position starts.
pub open spec fn decl_start(head: Seq<char>) -> Option<int> {
    opt_max(
        opt_max(rfind_spec(head, "const "@), rfind_spec(head, "let "@)),
        rfind_spec(head, "var "@),
    )
}

/// The whitespace skipped after a hoisted call: ASCII whitespace and vertical tab.
pub open spec fn hoist_ws(c: char) -> bool {
    crate::text::is_ascii_ws(c) || c == '\u{0B}'
}

pub open spec fn skip_hoist_ws(s: Seq<char>, k: int) -> int
    decreases s.len() - k,
{
    if 0 <= k < s.len() && hoist_ws(s[k]) {
        skip_hoist_ws(s, k + 1)
    } else {
        k
    }
}

/// Where a `vi.hoisted(` statement whose arguments start at `i2` ends: past the closing `)`
/// (or at the end), past whitespace, and past a `;` if one follows.
pub open spec fn hoisted_end(src: Seq<char>, i2: int) -> int {
    let pc = crate::mocks::paren_close(src, i2, 1);
    let k0 = if pc < src.len() {
        pc + 1
    } else {
        src.len() as int
    };
    let k1 = skip_hoist_ws(src, k0);
    if k1 < src.len() && src[k1] == ';' {
        k1 + 1
    } else {
        k1
    }
}

/// The `vi.hoisted(...)` declarations from index `i` on, as whole statements.
pub open spec fn hoisted_from(src: Seq<char>, i: int) -> Seq<Seq<char>>
    decreases src.len() + 1 - i,
{
    match crate::text::find_from(src, "vi.hoisted("@, i) {
        None => Seq::empty(),
        Some(at) => {
            let i2 = at + 11;
            match decl_start(src.take(at)) {
                None => if i < i2 <= src.len() {
                    hoisted_from(src, i2)
                } else {
                    Seq::empty()
                },
                Some(start) => {
                    let k = hoisted_end(src, i2);
                    let ni = if k > at + 1 {
                        k
                    } else {
                        at + 1
                    };
                    seq![src.subrange(start, k)] + if i < ni <= src.len() {
                        hoisted_from(src, ni)
                    } else {
                        Seq::empty()
                    }
                },
            }
        },
    }
}

fn rfind_str(h: &[char], n: &str) -> (r: Option<usize>)
    ensures
        match r {
            Some(i) => rfind_spec(h@, n@) == Some(i as int) && i + n@.len() <= h@.len(),
            None => rfind_spec(h@, n@) is None,
        },
{
    let nc = chars_of(n);
    rfind_chars(h, nc.as_slice())
}

fn decl_start_exec(head: &[char]) -> (r: Option<usize>)
    ensures
        match r {
            Some(i) => decl_start(head@) == Some(i as int) && i <= head@.len(),
            None => decl_start(head@) is None,
        },
{
    let a = rfind_str(head, "const ");
    let b = rfind_str(head, "let ");
    let c = rfind_str(head, "var ");
    let ab: Option<usize> = match (a, b) {
        (Some(x), Some(y)) => Some(if x >= y { x } else { y }),
        (Some(x), None) => Some(x),
        (None, y) => y,
    };
    match (ab, c) {
        (Some(x), Some(y)) => Some(if x >= y { x } else { y }),
        (Some(x), None) => Some(x),
        (None, y) => y,
    }
}

fn hoisted_end_exec(src: &[char], i2: usize) -> (r: usize)
    requires
        i2 <= src.len(),
    ensures
        r == hoisted_end(src@, i2 as int),
        i2 <= r <= src.len(),
{
    let pc = crate::mocks::paren_close_exec(src, i2);
    let k0 = if pc < src.len() {
        pc + 1
    } else {
        src.len()
    };
    let mut k1 = k0;
    while k1 < src.len() && (crate::text::is_ascii_ws_exec(src[k1]) || src[k1] == '\u{0B}')
        invariant
            k0 <= k1 <= src@.len(),
            skip_hoist_ws(src@, k0 as int) == skip_hoist_ws(src@, k1 as int),
        decreases src@.len() - k1,
    {
        k1 += 1;
    }
    if k1 < src.len() && src[k1] == ';' {
        k1 + 1
    } else {
        k1
    }
}

/// The `const`/`let`/`var` statements that initialise from `vi.hoisted(...)`, whole, so
/// they can be replayed before mock factories that close over them.
pub fn extract_hoisted(src: &str) -> (r: Vec<String>)
    ensures
        strs(r@) == hoisted_from(src@, 0),
{
    let s = chars_of(src);
    let needle = chars_of("vi.hoisted(");
    proof {
        reveal_strlit("vi.hoisted(");
    }
    let mut out: Vec<String> = Vec::new();
    let ghost total = hoisted_from(src@, 0);
    let mut i: usize = 0;
    assert(strs(out@) + total =~= total);
    loop
        invariant
            i <= s@.len(),
            s@ == src@,
            needle@ == "vi.hoisted("@,
            needle@.len() == 11,
            total == hoisted_from(src@, 0),
            total == strs(out@) + hoisted_from(src@, i as int),
        decreases s@.len() - i,
    {
        match crate::text::find_at(s.as_slice(), needle.as_slice(), i) {
            None => {
                assert(strs(out@) + Seq::<Seq<char>>::empty() =~= strs(out@));
                return out;
            },
            Some(at) => {
                proof {
                    crate::text::lemma_find_from(s@, needle@, i as int);
                }
                let i2 = at + 11;
                let head = slice_take(s.as_slice(), at);
                match decl_start_exec(head.as_slice()) {
                    None => {
                        i = i2;
                    },
                    Some(start) => {
                        let k = hoisted_end_exec(s.as_slice(), i2);
                        let ghost b = strs(out@);
                        out.push(string_of(slice_range(s.as_slice(), start, k).as_slice()));
                        let ni = if k > at + 1 {
                            k
                        } else {
                            at + 1
                        };
                        proof {
                            let piece = s@.subrange(start as int, k as int);
                            assert(strs(out@) =~= b.push(piece));
                            assert(b + (seq![piece] + hoisted_from(src@, ni as int)) =~= strs(out@)
                                + hoisted_from(src@, ni as int));
                        }
                        i = ni;
                    },
                }
            },
        }
    }
}

} // verus!

verus! {

/// The mock target registered for a basename (its first entry).
pub open spec fn target_of(map: Seq<(String, String)>, base: Seq<char>) -> Option<Seq<char>> {
    let i = crate::assoc::first_index(crate::covdata::file_keys(map), base);
    if i >= 0 {
        Some(map[i].1@)
    } else {
        None
    }
}

/// `q spec q`.
pub open spec fn quoted(q: char, s: Seq<char>) -> Seq<char> {
    seq![q] + s + seq![q]
}

/// One quote style's rewrite: the text, and whether it held the quoted specifier.
pub open spec fn rewrite_quoted(text: Seq<char>, q: char, spec: Seq<char>, abs: Seq<char>) -> (Seq<char>, bool) {
    if contains_seq(text, quoted(q, spec)) {
        (crate::mocks::replace_all_spec(text, quoted(q, spec), quoted(q, abs)), true)
    } else {
        (text, false)
    }
}

/// The bundle text after each externalized mock specifier, in double then single quotes, is
/// replaced by the absolute mock target of its basename; and whether anything changed.
pub open spec fn rewrite_externals_spec(
    text: Seq<char>,
    externals: Seq<Seq<char>>,
    map: Seq<(String, String)>,
) -> (Seq<char>, bool)
    decreases externals.len(),
{
    if externals.len() == 0 {
        (text, false)
    } else {
        let prev = rewrite_externals_spec(text, externals.drop_last(), map);
        let spec = externals.last();
        match target_of(map, spec_basename_spec(spec)) {
            None => prev,
            Some(abs) => {
                let a = rewrite_quoted(prev.0, '"', spec, abs);
                let b = rewrite_quoted(a.0, '\'', spec, abs);
                (b.0, prev.1 || a.1 || b.1)
            },
        }
    }
}

fn quoted_exec(q: char, s: &[char]) -> (r: Vec<char>)
    ensures
        r@ == quoted(q, s@),
{
    let mut v: Vec<char> = Vec::new();
    v.push(q);
    crate::text::extend_chars(&mut v, s);
    v.push(q);
    assert(v@ =~= quoted(q, s@));
    v
}

fn rewrite_quoted_exec(text: Vec<char>, q: char, spec: &[char], abs: &[char]) -> (r: (Vec<char>, bool))
    ensures
        (r.0@, r.1) == rewrite_quoted(text@, q, spec@, abs@),
{
    let from = quoted_exec(q, spec);
    let to = quoted_exec(q, abs);
    if contains_chars(text.as_slice(), from.as_slice()) {
        (crate::mocks::replace_all(text.as_slice(), from.as_slice(), to.as_slice()), true)
    } else {
        (text, false)
    }
}

/// Point each externalized mock import of a bundle at the single absolute target its
/// basename is mocked under (see `rewrite_externals_spec`); also whether the text changed.
pub fn rewrite_externals(text: &str, externals: &[String], map: &Vec<(String, String)>) -> (r: (String, bool))
    ensures
        (r.0@, r.1) == rewrite_externals_spec(text@, strs(externals@), map@),
{
    let mut t = chars_of(text);
    let mut changed = false;
    let ghost es = strs(externals@);
    let mut i: usize = 0;
    assert(es.take(0) =~= Seq::<Seq<char>>::empty());
    while i < externals.len()
        invariant
            i <= externals@.len(),
            es == strs(externals@),
            (t@, changed) == rewrite_externals_spec(text@, es.take(i as int), map@),
        decreases externals@.len() - i,
    {
        assert(es.take(i + 1).drop_last() =~= es.take(i as int));
        assert(es.take(i + 1).last() == externals@[i as int]@);
        let spec = chars_of(externals[i].as_str());
        let base = spec_basename(externals[i].as_str());
        let found = crate::covdata::find_file(map, &base);
        proof {
            crate::assoc::lemma_first_index(crate::covdata::file_keys(map@), base@);
        }
        match found {
            None => {},
            Some(kk) => {
                let abs = chars_of(map[kk].1.as_str());
                let (t1, c1) = rewrite_quoted_exec(t, '"', spec.as_slice(), abs.as_slice());
                let (t2, c2) = rewrite_quoted_exec(t1, '\'', spec.as_slice(), abs.as_slice());
                t = t2;
                changed = changed || c1 || c2;
            },
        }
        i += 1;
    }
    assert(es.take(externals@.len() as int) =~= es);
    (string_of(t.as_slice()), changed)
}

} // verus!

verus! {

/// A setup file's mock that is kept out of the bundle: a real specifier (no `*` or `?`)
/// whose factory neither spreads the real module (`importOriginal`/`importActual`) nor
/// builds React elements.
pub open spec fn externalizable_spec(spec: Seq<char>, factory: Seq<char>) -> bool {
    &&& !contains_seq(spec, seq!['*'])
    &&& !contains_seq(spec, seq!['?'])
    &&& !crate::text::contains_any_spec(factory, seq!["importOriginal"@, "importActual"@])
    &&& !crate::text::contains_any_spec(
        factory,
        seq!["react/jsx"@, "createElement"@, "React."@, "=> ("@, "=> <"@],
    )
}

pub fn externalizable_mock(spec: &str, factory: &str) -> (b: bool)
    ensures
        b == externalizable_spec(spec@, factory@),
{
    let sc = chars_of(spec);
    let star: Vec<char> = vec!['*'];
    let q: Vec<char> = vec!['?'];
    assert(star@ =~= seq!['*']);
    assert(q@ =~= seq!['?']);
    if contains_chars(sc.as_slice(), star.as_slice()) || contains_chars(sc.as_slice(), q.as_slice()) {
        return false;
    }
    let fc = chars_of(factory);
    let partial = ["importOriginal", "importActual"];
    let react = ["react/jsx", "createElement", "React.", "=> (", "=> <"];
    assert(partial@.map_values(|x: &str| x@) =~= seq!["importOriginal"@, "importActual"@]);
    assert(react@.map_values(|x: &str| x@) =~= seq!["react/jsx"@, "createElement"@, "React."@, "=> ("@, "=> <"@]);
    !crate::text::contains_any(fc.as_slice(), &partial) && !crate::text::contains_any(fc.as_slice(), &react)
}

fn string_in(v: &[String], s: &str) -> (b: bool)
    ensures
        b == strs(v@).contains(s@),
{
    let sc = chars_of(s);
    let mut i: usize = 0;
    while i < v.len()
        invariant
            i <= v@.len(),
            sc@ == s@,
            forall|j: int| 0 <= j < i ==> strs(v@)[j] != s@,
        decreases v@.len() - i,
    {
        if chars_eq(chars_of(v[i].as_str()).as_slice(), sc.as_slice()) {
            assert(strs(v@)[i as int] == s@);
            return true;
        }
        i += 1;
    }
    false
}

/// Record an externalized setup mock: its resolved target under its basename (the first
/// target of a basename is kept), and the specifier among the externals once.
pub fn add_setup_mock(
    externals: &mut Vec<String>,
    targets: &mut Vec<(String, String)>,
    spec: &str,
    resolved: Option<String>,
)
    ensures
        strs(final(externals)@) == push_unique(strs(old(externals)@), spec@),
        match resolved {
            Some(abs) => target_of(final(targets)@, spec_basename_spec(spec@)) == (match target_of(
                old(targets)@,
                spec_basename_spec(spec@),
            ) {
                Some(t) => Some(t),
                None => Some(abs@),
            }),
            None => final(targets)@ == old(targets)@,
        },
        forall|b: Seq<char>|
            b != spec_basename_spec(spec@) ==> #[trigger] target_of(final(targets)@, b) == target_of(
                old(targets)@,
                b,
            ),
{
    let base = spec_basename(spec);
    let ghost o = targets@;
    match resolved {
        Some(abs) => {
            let found = crate::covdata::find_file(targets, &base);
            proof {
                crate::assoc::lemma_first_index(crate::covdata::file_keys(o), base@);
            }
            if found.is_none() {
                targets.push((base, abs));
                proof {
                    assert(crate::covdata::file_keys(targets@) =~= crate::covdata::file_keys(o).push(
                        spec_basename_spec(spec@),
                    ));
                    crate::assoc::lemma_first_index_push(
                        crate::covdata::file_keys(o),
                        spec_basename_spec(spec@),
                        spec_basename_spec(spec@),
                    );
                    assert forall|b: Seq<char>| b != spec_basename_spec(spec@) implies #[trigger] target_of(
                        targets@,
                        b,
                    ) == target_of(o, b) by {
                        crate::assoc::lemma_first_index_push(
                            crate::covdata::file_keys(o),
                            spec_basename_spec(spec@),
                            b,
                        );
                        crate::assoc::lemma_first_index(crate::covdata::file_keys(o), b);
                    }
                }
            }
        },
        None => {},
    }
    let ghost ev = strs(externals@);
    if !string_in(externals.as_slice(), spec) {
        externals.push(spec.to_owned());
        assert(strs(externals@) =~= ev.push(spec@));
    }
}

} // verus!

