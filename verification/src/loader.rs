//! How the native `require` routes a request: builtin shims, the vitest builtin, lazily
//! stubbed barrels, then — once resolved — circular loads, assets, native addons, mocks,
//! CommonJS and ES modules; and when a failed load is stubbed instead of thrown.

use vstd::prelude::*;

use crate::modules::{is_node_builtin, lazy_stub_match, lazy_stub_spec, node_builtins, strip_node_scheme, Kind};
use crate::text::{chars_of, contains_chars, contains_seq, extend_chars, string_of, strs};
use crate::transform::{ext_in, extension, extension_spec};

verus! {

/// Where a specifier goes before resolution.
pub enum PreRoute {
    /// A Node builtin, served from its shim under `<node:spec>`.
    NodeBuiltin(String),
    /// The builtin `vitest` module.
    Vitest,
    /// A lazily stubbed barrel: its key and default export name.
    LazyStub(String, Option<String>),
    /// Anything else is resolved.
    Resolve,
}

/// The registry key of a Node builtin's shim.
pub open spec fn builtin_key_spec(spec: Seq<char>) -> Seq<char> {
    "<node:"@ + spec + ">"@
}

/// The registry key of a stub for a specifier that could not be resolved from `dir`.
pub open spec fn unresolved_key_spec(dir: Seq<char>, spec: Seq<char>) -> Seq<char> {
    "<unresolved:"@ + dir + ":"@ + spec + ">"@
}

pub fn builtin_key(spec: &str) -> (r: String)
    ensures
        r@ == builtin_key_spec(spec@),
{
    let mut v = chars_of("<node:");
    extend_chars(&mut v, chars_of(spec).as_slice());
    extend_chars(&mut v, chars_of(">").as_slice());
    string_of(v.as_slice())
}

pub fn unresolved_key(dir: &str, spec: &str) -> (r: String)
    ensures
        r@ == unresolved_key_spec(dir@, spec@),
{
    let mut v = chars_of("<unresolved:");
    extend_chars(&mut v, chars_of(dir).as_slice());
    extend_chars(&mut v, chars_of(":").as_slice());
    extend_chars(&mut v, chars_of(spec).as_slice());
    extend_chars(&mut v, chars_of(">").as_slice());
    string_of(v.as_slice())
}

/// The route of a specifier before resolution: Node builtins first, then `vitest`, then a
/// configured barrel.
pub open spec fn pre_route_ok(spec: Seq<char>, barrels: Seq<Seq<char>>, r: PreRoute) -> bool {
    if node_builtins().contains(strip_node_scheme(spec)) {
        r matches PreRoute::NodeBuiltin(k) && k@ == builtin_key_spec(spec)
    } else if spec == "vitest"@ {
        r is Vitest
    } else {
        match lazy_stub_spec(spec, barrels) {
            Some(def) => r matches PreRoute::LazyStub(k, d) && k@ == spec
                && crate::coverage::opt_string(d) == def,
            None => r is Resolve,
        }
    }
}

pub fn pre_route(spec: &str, barrels: &[String]) -> (r: PreRoute)
    ensures
        pre_route_ok(spec@, strs(barrels@), r),
{
    if is_node_builtin(spec) {
        return PreRoute::NodeBuiltin(builtin_key(spec));
    }
    proof {
        reveal_strlit("vitest");
    }
    if crate::text::chars_eq(chars_of(spec).as_slice(), chars_of("vitest").as_slice()) {
        return PreRoute::Vitest;
    }
    match lazy_stub_match(spec, barrels) {
        Some((k, d)) => PreRoute::LazyStub(k, d),
        None => PreRoute::Resolve,
    }
}

/// How a resolved module is loaded.
#[derive(Clone, Copy, PartialEq, Eq, Structural, Debug)]
pub enum LoadRoute {
    /// It is mid-evaluation: its partial exports are returned.
    Circular,
    /// A stubbed asset or a JSON file.
    Asset,
    /// A native addon, through the Node-API host.
    Addon,
    /// A registered mock.
    Mock,
    /// Loaded as CommonJS.
    Cjs,
    /// Required as an ES module (its namespace is returned).
    Esm,
}

/// The route of a resolved module: a circular load first, then assets and JSON, native
/// addons, mocks; otherwise CommonJS under the module runner or for a CommonJS file
/// (`kind`), else an ES module.
pub open spec fn load_route_spec(abs: Seq<char>, loading: bool, mocked: bool, module_runner: bool, kind: Kind) -> LoadRoute {
    if loading {
        LoadRoute::Circular
    } else if ext_in(abs, crate::modules::asset_exts()) || extension_spec(abs) == Some("json"@) {
        LoadRoute::Asset
    } else if extension_spec(abs) == Some("node"@) {
        LoadRoute::Addon
    } else if mocked {
        LoadRoute::Mock
    } else if module_runner || kind == Kind::Cjs {
        LoadRoute::Cjs
    } else {
        LoadRoute::Esm
    }
}

pub fn load_route(abs: &str, loading: bool, mocked: bool, module_runner: bool, kind: Kind) -> (r: LoadRoute)
    ensures
        r == load_route_spec(abs@, loading, mocked, module_runner, kind),
{
    if loading {
        return LoadRoute::Circular;
    }
    if crate::modules::is_asset(abs) {
        return LoadRoute::Asset;
    }
    proof {
        reveal_strlit("json");
        reveal_strlit("node");
    }
    match extension(abs) {
        Some(e) => {
            if crate::text::chars_eq(e.as_slice(), chars_of("json").as_slice()) {
                return LoadRoute::Asset;
            }
            if crate::text::chars_eq(e.as_slice(), chars_of("node").as_slice()) {
                return LoadRoute::Addon;
            }
        },
        None => {},
    }
    if mocked {
        LoadRoute::Mock
    } else if module_runner || kind == Kind::Cjs {
        LoadRoute::Cjs
    } else {
        LoadRoute::Esm
    }
}

/// A failed load of `path` is stubbed (not thrown) when stubbing is on and the path lies in
/// a `node_modules` directory; app modules always fail loudly.
pub open spec fn stub_on_failure_spec(path: Seq<char>, stub_failed_deps: bool) -> bool {
    stub_failed_deps && contains_seq(path, "/node_modules/"@)
}

pub fn stub_on_failure(path: &str, stub_failed_deps: bool) -> (b: bool)
    ensures
        b == stub_on_failure_spec(path@, stub_failed_deps),
{
    proof {
        reveal_strlit("/node_modules/");
    }
    stub_failed_deps && contains_chars(chars_of(path).as_slice(), chars_of("/node_modules/").as_slice())
}

} // verus!

verus! {

/// A module body that threw is transformed again with decorator metadata and re-run once:
/// only on the first attempt, for an app file (not in `node_modules`), in a project that
/// emits decorator metadata, when the file uses decorators.
pub open spec fn retry_metadata_spec(abs: Seq<char>, prefer_metadata: bool, metadata_on: bool, has_decorator: bool) -> bool {
    !prefer_metadata && !crate::graph::is_node_modules_spec(abs) && metadata_on && has_decorator
}

pub fn retry_with_metadata(abs: &str, prefer_metadata: bool, metadata_on: bool, has_decorator: bool) -> (b: bool)
    ensures
        b == retry_metadata_spec(abs@, prefer_metadata, metadata_on, has_decorator),
{
    !prefer_metadata && !crate::graph::is_node_modules(abs) && metadata_on && has_decorator
}

/// What becomes of the mocks a loaded module queued.
#[derive(Clone, Copy, PartialEq, Eq, Structural, Debug)]
pub enum PendingMocks {
    /// Left alone: an outer mock resolution owns the queue.
    Keep,
    /// Resolved and registered relative to the module.
    Drain,
    /// Dropped: the entry's mocks were registered before it loaded.
    Discard,
}

pub open spec fn pending_mocks_spec(resolving: bool, drain: bool) -> PendingMocks {
    if resolving {
        PendingMocks::Keep
    } else if drain {
        PendingMocks::Drain
    } else {
        PendingMocks::Discard
    }
}

pub fn pending_mocks(resolving: bool, drain: bool) -> (r: PendingMocks)
    ensures
        r == pending_mocks_spec(resolving, drain),
{
    if resolving {
        PendingMocks::Keep
    } else if drain {
        PendingMocks::Drain
    } else {
        PendingMocks::Discard
    }
}

} // verus!

