//! The text side of lowering an ES module to CommonJS: the switches that turn the native
//! emitter on, the `import_<name>` variables, the `require` line each import shape needs,
//! the export registrations, object-key quoting, and the assembly of a module's CommonJS
//! text. The syntax-tree walk that finds the imports and exports hands this module plain
//! names and specifiers.
//!
//! Imports become `var import_<src> = require("src")` (through `__toESM` when a default or
//! namespace is bound) and references to imported names read `import_<src>.<name>`, so
//! bindings stay live; exports become getters registered on `__tt_exports`, published as
//! `module.exports = __toCommonJS(__tt_exports)`.

use vstd::prelude::*;

use crate::mocks::{replace_all, replace_all_spec};
use crate::text::{
    chars_eq, chars_of, dec_spec, extend_chars, is_ascii_alpha, is_ident, is_ident_exec, rfind_chars,
    rfind_spec, string_of, u64_dec,
};

verus! {

/// A feature switch read from the environment: on when unset, off when set to `0` or to
/// nothing.
pub open spec fn switch_on_spec(setting: Option<Seq<char>>) -> bool {
    match setting {
        Some(v) => v != "0"@ && v.len() > 0,
        None => true,
    }
}

pub open spec fn opt_str(o: Option<&str>) -> Option<Seq<char>> {
    match o {
        Some(s) => Some(s@),
        None => None,
    }
}

fn switch_on(setting: Option<&str>) -> (b: bool)
    ensures
        b == switch_on_spec(opt_str(setting)),
{
    match setting {
        Some(v) => {
            let c = chars_of(v);
            !chars_eq(c.as_slice(), chars_of("0").as_slice()) && c.len() > 0
        },
        None => true,
    }
}

/// Whether app files are lowered by the native emitter (`TURBO_NATIVE_CJS`).
pub fn enabled(setting: Option<&str>) -> (b: bool)
    ensures
        b == switch_on_spec(opt_str(setting)),
{
    switch_on(setting)
}

/// Whether node_modules packages are bundled natively (`TURBO_NATIVE_DEPS`).
pub fn deps_enabled(setting: Option<&str>) -> (b: bool)
    ensures
        b == switch_on_spec(opt_str(setting)),
{
    switch_on(setting)
}

/// Strict mode (`TURBO_NATIVE_CJS_STRICT`): no fallback for files the emitter cannot lower;
/// on when set to anything non-empty.
pub fn strict(setting: Option<&str>) -> (b: bool)
    ensures
        b == (setting matches Some(v) && v@.len() > 0),
{
    match setting {
        Some(v) => chars_of(v).len() > 0,
        None => false,
    }
}

/// `s` without trailing slashes.
pub open spec fn trim_slashes(s: Seq<char>) -> Seq<char>
    decreases s.len(),
{
    if s.len() > 0 && s.last() == '/' {
        trim_slashes(s.drop_last())
    } else {
        s
    }
}

/// What follows the last slash (all of `s` without one).
pub open spec fn last_segment(s: Seq<char>) -> Seq<char> {
    match rfind_spec(s, seq!['/']) {
        Some(i) => s.skip(i + 1),
        None => s,
    }
}

/// Each character that cannot stand in an identifier replaced by `_`.
pub open spec fn sanitize(s: Seq<char>) -> Seq<char> {
    s.map_values(|c: char| if is_ident(c) { c } else { '_' })
}

/// The variable an import's module is bound to: `import_`, the specifier's last path segment
/// made an identifier, `_` and the import's sequence number.
pub open spec fn import_var_spec(source: Seq<char>, seq: nat) -> Seq<char> {
    "import_"@ + sanitize(last_segment(trim_slashes(source))) + seq!['_'] + dec_spec(seq)
}

pub fn import_var(source: &str, seq: usize) -> (r: String)
    ensures
        r@ == import_var_spec(source@, seq as nat),
{
    let s = chars_of(source);
    let mut end: usize = s.len();
    assert(s@.take(s@.len() as int) =~= s@);
    while end > 0 && s[end - 1] == '/'
        invariant
            end <= s@.len(),
            trim_slashes(s@) == trim_slashes(s@.take(end as int)),
        decreases end,
    {
        assert(s@.take(end as int).drop_last() =~= s@.take(end - 1));
        end -= 1;
    }
    let t = crate::text::slice_take(s.as_slice(), end);
    assert(trim_slashes(t@) == t@);
    let slash: Vec<char> = vec!['/'];
    assert(slash@ =~= seq!['/']);
    let seg: Vec<char> = match rfind_chars(t.as_slice(), slash.as_slice()) {
        Some(i) => crate::text::slice_range(t.as_slice(), i + 1, t.len()),
        None => crate::text::slice_take(t.as_slice(), t.len()),
    };
    assert(t@.take(t@.len() as int) =~= t@);
    assert(seg@ =~= last_segment(trim_slashes(source@)));
    let mut v = chars_of("import_");
    let ghost head = v@;
    let mut k: usize = 0;
    while k < seg.len()
        invariant
            k <= seg@.len(),
            v@ == head + sanitize(seg@.take(k as int)),
        decreases seg.len() - k,
    {
        let c = seg[k];
        if is_ident_exec(c) {
            v.push(c);
        } else {
            v.push('_');
        }
        assert(sanitize(seg@.take(k + 1)) =~= sanitize(seg@.take(k as int)).push(
            if is_ident(c) { c } else { '_' },
        ));
        k += 1;
    }
    assert(seg@.take(seg@.len() as int) =~= seg@);
    v.push('_');
    extend_chars(&mut v, u64_dec(seq as u64).as_slice());
    assert(v@ =~= import_var_spec(source@, seq as nat));
    string_of(v.as_slice())
}

/// A key that can be written bare in an object literal: an identifier of ASCII letters,
/// digits, `_` and `$`, not starting with a digit.
pub open spec fn plain_key(name: Seq<char>) -> bool {
    &&& name.len() > 0
    &&& (is_ascii_alpha(name[0]) || name[0] == '_' || name[0] == '$')
    &&& forall|i: int| 0 <= i < name.len() ==> is_ident(#[trigger] name[i])
}

/// An object key: bare when it can be, else double-quoted with its quotes escaped.
pub open spec fn quote_key_spec(name: Seq<char>) -> Seq<char> {
    if plain_key(name) {
        name
    } else {
        seq!['"'] + replace_all_spec(name, seq!['"'], seq!['\\', '"']) + seq!['"']
    }
}

pub fn quote_key(name: &str) -> (r: String)
    ensures
        r@ == quote_key_spec(name@),
{
    let n = chars_of(name);
    let mut ok = n.len() > 0 && (('a' <= n[0] && n[0] <= 'z') || ('A' <= n[0] && n[0] <= 'Z') || n[0] == '_'
        || n[0] == '$');
    let mut i: usize = 0;
    while ok && i < n.len()
        invariant
            i <= n@.len(),
            n@ == name@,
            ok ==> forall|j: int| 0 <= j < i ==> is_ident(#[trigger] n@[j]),
            ok ==> n@.len() > 0 && (is_ascii_alpha(n@[0]) || n@[0] == '_' || n@[0] == '$'),
            !ok ==> !plain_key(name@),
        decreases n.len() - i + if ok { 1int } else { 0int },
    {
        if !is_ident_exec(n[i]) {
            ok = false;
        } else {
            i += 1;
        }
    }
    if ok {
        string_of(n.as_slice())
    } else {
        let q: Vec<char> = vec!['"'];
        let eq: Vec<char> = vec!['\\', '"'];
        assert(q@ =~= seq!['"']);
        assert(eq@ =~= seq!['\\', '"']);
        let mut v: Vec<char> = vec!['"'];
        extend_chars(&mut v, replace_all(n.as_slice(), q.as_slice(), eq.as_slice()).as_slice());
        v.push('"');
        assert(v@ =~= quote_key_spec(name@));
        string_of(v.as_slice())
    }
}

} // verus!

verus! {

/// How a module specifier is reached from the lowered code.
pub enum SourceRef {
    /// A run-time `require("spec")`.
    External,
    /// A bundled ES module: `init_<id>()` runs it once, `<id>_exports` holds its exports.
    BundledEsm { id: String },
    /// A bundled CommonJS module: `require_<id>()` returns its `module.exports`.
    BundledCjs { id: String },
}

pub open spec fn require_call(src: Seq<char>) -> Seq<char> {
    "require(\""@ + src + "\")"@
}

pub open spec fn to_esm(e: Seq<char>) -> Seq<char> {
    "__toESM("@ + e + ")"@
}

/// An expression for the module's namespace object; `toesm` adds default interop to a
/// CommonJS result (a bundled ES module's exports object is used as it is).
pub open spec fn namespace_expr_spec(r: SourceRef, src: Seq<char>, toesm: bool) -> Seq<char> {
    match r {
        SourceRef::External => if toesm { to_esm(require_call(src)) } else { require_call(src) },
        SourceRef::BundledEsm { id } => "(init_"@ + id@ + "(), "@ + id@ + "_exports)"@,
        SourceRef::BundledCjs { id } => {
            let c = "require_"@ + id@ + "()"@;
            if toesm { to_esm(c) } else { c }
        },
    }
}

fn push_str(v: &mut Vec<char>, s: &str)
    ensures
        final(v)@ == old(v)@ + s@,
{
    extend_chars(v, chars_of(s).as_slice());
}

fn namespace_chars(r: &SourceRef, src: &str, toesm: bool) -> (v: Vec<char>)
    ensures
        v@ == namespace_expr_spec(*r, src@, toesm),
{
    let mut v: Vec<char> = Vec::new();
    match r {
        SourceRef::External => {
            if toesm {
                push_str(&mut v, "__toESM(");
            }
            push_str(&mut v, "require(\"");
            push_str(&mut v, src);
            push_str(&mut v, "\")");
            if toesm {
                push_str(&mut v, ")");
            }
        },
        SourceRef::BundledEsm { id } => {
            push_str(&mut v, "(init_");
            push_str(&mut v, id.as_str());
            push_str(&mut v, "(), ");
            push_str(&mut v, id.as_str());
            push_str(&mut v, "_exports)");
        },
        SourceRef::BundledCjs { id } => {
            if toesm {
                push_str(&mut v, "__toESM(");
            }
            push_str(&mut v, "require_");
            push_str(&mut v, id.as_str());
            push_str(&mut v, "()");
            if toesm {
                push_str(&mut v, ")");
            }
        },
    }
    assert(v@ =~= namespace_expr_spec(*r, src@, toesm));
    v
}

pub fn namespace_expr(r: &SourceRef, src: &str, toesm: bool) -> (s: String)
    ensures
        s@ == namespace_expr_spec(*r, src@, toesm),
{
    string_of(namespace_chars(r, src, toesm).as_slice())
}

/// One name an import declaration binds.
pub enum ImportSpec {
    /// `import d from "s"`
    Default(String),
    /// `import * as ns from "s"`
    Namespace(String),
    /// `import { imported as local } from "s"`
    Named { imported: String, local: String },
}

/// How a reference to an imported name is rewritten: `<var>.<prop>`.
#[derive(Clone)]
pub struct Access {
    pub var: String,
    pub prop: String,
}

pub open spec fn access_view(a: Option<Access>) -> Option<(Seq<char>, Seq<char>)> {
    match a {
        Some(x) => Some((x.var@, x.prop@)),
        None => None,
    }
}

pub open spec fn binds_default_or_ns(specs: Seq<ImportSpec>) -> bool {
    exists|i: int| 0 <= i < specs.len() && !(#[trigger] specs[i] is Named)
}

/// The local of the first namespace specifier.
pub open spec fn first_ns(specs: Seq<ImportSpec>) -> Option<Seq<char>>
    decreases specs.len(),
{
    if specs.len() == 0 {
        None
    } else {
        match specs[0] {
            ImportSpec::Namespace(l) => Some(l@),
            _ => first_ns(specs.drop_first()),
        }
    }
}

/// The variable a CommonJS or external import is bound to: its namespace local, if any.
pub open spec fn import_binding(src: Seq<char>, seq: nat, specs: Seq<ImportSpec>) -> Seq<char> {
    match first_ns(specs) {
        Some(l) => l,
        None => import_var_spec(src, seq),
    }
}

/// The object references to the import's names read from.
pub open spec fn access_object(r: SourceRef, src: Seq<char>, seq: nat, specs: Seq<ImportSpec>) -> Seq<char> {
    match r {
        SourceRef::BundledEsm { id } => id@ + "_exports"@,
        _ => import_binding(src, seq, specs),
    }
}

/// How references to one specifier's local are rewritten (a namespace local is used as it is).
pub open spec fn access_for(s: ImportSpec, obj: Seq<char>) -> Option<(Seq<char>, Seq<char>)> {
    match s {
        ImportSpec::Default(_) => Some((obj, "default"@)),
        ImportSpec::Namespace(_) => None,
        ImportSpec::Named { imported, local: _ } => Some((obj, imported@)),
    }
}

/// The line an import declaration with these specifiers becomes.
pub open spec fn import_line_spec(src: Seq<char>, seq: nat, r: SourceRef, specs: Seq<ImportSpec>) -> Seq<char> {
    match r {
        SourceRef::BundledEsm { id } => match first_ns(specs) {
            Some(l) => "var "@ + l + " = (init_"@ + id@ + "(), "@ + id@ + "_exports);"@,
            None => "init_"@ + id@ + "();"@,
        },
        _ => "var "@ + import_binding(src, seq, specs) + " = "@ + namespace_expr_spec(r, src, binds_default_or_ns(specs))
            + ";"@,
    }
}

/// The line a side-effect import (`import "s"`) becomes.
pub open spec fn bare_import_spec(src: Seq<char>, seq: nat, r: SourceRef) -> Seq<char> {
    match r {
        SourceRef::External => "var "@ + import_var_spec(src, seq) + " = "@ + require_call(src) + ";"@,
        SourceRef::BundledEsm { id } => "init_"@ + id@ + "();"@,
        SourceRef::BundledCjs { id } => "require_"@ + id@ + "();"@,
    }
}

pub fn bare_import(src: &str, seq: usize, r: &SourceRef) -> (s: String)
    ensures
        s@ == bare_import_spec(src@, seq as nat, *r),
{
    let mut v: Vec<char> = Vec::new();
    match r {
        SourceRef::External => {
            push_str(&mut v, "var ");
            push_str(&mut v, import_var(src, seq).as_str());
            push_str(&mut v, " = ");
            push_str(&mut v, "require(\"");
            push_str(&mut v, src);
            push_str(&mut v, "\")");
            push_str(&mut v, ";");
        },
        SourceRef::BundledEsm { id } => {
            push_str(&mut v, "init_");
            push_str(&mut v, id.as_str());
            push_str(&mut v, "();");
        },
        SourceRef::BundledCjs { id } => {
            push_str(&mut v, "require_");
            push_str(&mut v, id.as_str());
            push_str(&mut v, "();");
        },
    }
    assert(v@ =~= bare_import_spec(src@, seq as nat, *r));
    string_of(v.as_slice())
}

fn first_ns_exec(specs: &[ImportSpec]) -> (r: Option<String>)
    ensures
        opt_view(r) == first_ns(specs@),
{
    let mut i: usize = 0;
    assert(specs@.skip(0) =~= specs@);
    while i < specs.len()
        invariant
            i <= specs@.len(),
            first_ns(specs@) == first_ns(specs@.skip(i as int)),
        decreases specs.len() - i,
    {
        assert(specs@.skip(i as int).drop_first() =~= specs@.skip(i + 1));
        assert(specs@.skip(i as int)[0] == specs@[i as int]);
        match &specs[i] {
            ImportSpec::Namespace(l) => {
                return Some(l.clone());
            },
            _ => {},
        }
        i += 1;
    }
    None
}

pub open spec fn opt_view(o: Option<String>) -> Option<Seq<char>> {
    match o {
        Some(s) => Some(s@),
        None => None,
    }
}

fn binds_default_or_ns_exec(specs: &[ImportSpec]) -> (b: bool)
    ensures
        b == binds_default_or_ns(specs@),
{
    let mut i: usize = 0;
    while i < specs.len()
        invariant
            i <= specs@.len(),
            forall|j: int| 0 <= j < i ==> #[trigger] specs@[j] is Named,
        decreases specs.len() - i,
    {
        match &specs[i] {
            ImportSpec::Named { .. } => {},
            _ => {
                return true;
            },
        }
        i += 1;
    }
    false
}

/// An import declaration with specifiers lowered: its line, and for each specifier how
/// references to its local are rewritten.
pub fn lower_import(src: &str, seq: usize, r: &SourceRef, specs: &[ImportSpec]) -> (out: (String, Vec<Option<Access>>))
    ensures
        out.0@ == import_line_spec(src@, seq as nat, *r, specs@),
        out.1@.len() == specs@.len(),
        forall|i: int|
            0 <= i < specs@.len() ==> access_view(#[trigger] out.1@[i]) == access_for(
                specs@[i],
                access_object(*r, src@, seq as nat, specs@),
            ),
{
    let ns = first_ns_exec(specs);
    let mut line: Vec<char> = Vec::new();
    let obj: String = match r {
        SourceRef::BundledEsm { id } => {
            match &ns {
                Some(l) => {
                    push_str(&mut line, "var ");
                    push_str(&mut line, l.as_str());
                    push_str(&mut line, " = (init_");
                    push_str(&mut line, id.as_str());
                    push_str(&mut line, "(), ");
                    push_str(&mut line, id.as_str());
                    push_str(&mut line, "_exports);");
                },
                None => {
                    push_str(&mut line, "init_");
                    push_str(&mut line, id.as_str());
                    push_str(&mut line, "();");
                },
            }
            let mut o = chars_of(id.as_str());
            push_str(&mut o, "_exports");
            string_of(o.as_slice())
        },
        _ => {
            let var = match &ns {
                Some(l) => l.clone(),
                None => import_var(src, seq),
            };
            let has = binds_default_or_ns_exec(specs);
            push_str(&mut line, "var ");
            push_str(&mut line, var.as_str());
            push_str(&mut line, " = ");
            extend_chars(&mut line, namespace_chars(r, src, has).as_slice());
            push_str(&mut line, ";");
            var
        },
    };
    assert(line@ =~= import_line_spec(src@, seq as nat, *r, specs@));
    assert(obj@ =~= access_object(*r, src@, seq as nat, specs@));
    let mut acc: Vec<Option<Access>> = Vec::new();
    let mut i: usize = 0;
    while i < specs.len()
        invariant
            i <= specs@.len(),
            acc@.len() == i,
            obj@ == access_object(*r, src@, seq as nat, specs@),
            forall|j: int|
                0 <= j < i ==> access_view(#[trigger] acc@[j]) == access_for(
                    specs@[j],
                    access_object(*r, src@, seq as nat, specs@),
                ),
        decreases specs.len() - i,
    {
        let a = match &specs[i] {
            ImportSpec::Default(_) => Some(Access { var: obj.clone(), prop: string_of(chars_of("default").as_slice()) }),
            ImportSpec::Namespace(_) => None,
            ImportSpec::Named { imported, local: _ } => Some(Access { var: obj.clone(), prop: imported.clone() }),
        };
        acc.push(a);
        i += 1;
    }
    (string_of(line.as_slice()), acc)
}

} // verus!

verus! {

/// One export registration: `name: () => value_js`.
pub struct ExportEntry {
    pub name: String,
    pub value_js: String,
}

pub open spec fn entries_view(v: Seq<ExportEntry>) -> Seq<(Seq<char>, Seq<char>)> {
    v.map_values(|e: ExportEntry| (e.name@, e.value_js@))
}

fn entry(name: &str, value: &str) -> (e: ExportEntry)
    ensures
        e.name@ == name@,
        e.value_js@ == value@,
{
    ExportEntry { name: string_of(chars_of(name).as_slice()), value_js: string_of(chars_of(value).as_slice()) }
}

/// `export <declaration>`: each bound name exported as itself.
pub fn declared_exports(names: &[String]) -> (r: Vec<ExportEntry>)
    ensures
        entries_view(r@) == names@.map_values(|n: String| (n@, n@)),
{
    let mut r: Vec<ExportEntry> = Vec::new();
    let mut i: usize = 0;
    while i < names.len()
        invariant
            i <= names@.len(),
            entries_view(r@) == names@.take(i as int).map_values(|n: String| (n@, n@)),
        decreases names.len() - i,
    {
        let ghost before = r@;
        r.push(entry(names[i].as_str(), names[i].as_str()));
        assert(entries_view(r@) =~= entries_view(before).push((names@[i as int]@, names@[i as int]@)));
        assert(names@.take(i + 1).map_values(|n: String| (n@, n@)) =~= names@.take(i as int).map_values(
            |n: String| (n@, n@),
        ).push((names@[i as int]@, names@[i as int]@)));
        i += 1;
    }
    assert(names@.take(names@.len() as int) =~= names@);
    r
}

/// `export { local as exported, ... } from "s"`: the module bound to its own variable
/// (numbered apart from the imports), each name read from it.
/// The number a re-export's variable gets: a million past `seq`, wrapping as `usize`
/// addition does.
pub open spec fn reexport_seq(seq: nat) -> nat {
    if seq + 1000000 <= usize::MAX {
        seq + 1000000
    } else {
        (seq + 1000000 - usize::MAX - 1) as nat
    }
}

pub open spec fn reexport_var(src: Seq<char>, seq: nat) -> Seq<char> {
    import_var_spec(src, reexport_seq(seq))
}

pub fn reexport_from(src: &str, seq: usize, r: &SourceRef, specs: &[(String, String)]) -> (out: (
    String,
    Vec<ExportEntry>,
))
    ensures
        out.0@ == "var "@ + reexport_var(src@, seq as nat) + " = "@ + namespace_expr_spec(*r, src@, false) + ";"@,
        entries_view(out.1@) == specs@.map_values(
            |p: (String, String)| (p.0@, reexport_var(src@, seq as nat) + seq!['.'] + p.1@),
        ),
{
    let var = import_var(src, seq.wrapping_add(1000000));
    let mut line: Vec<char> = Vec::new();
    push_str(&mut line, "var ");
    push_str(&mut line, var.as_str());
    push_str(&mut line, " = ");
    extend_chars(&mut line, namespace_chars(r, src, false).as_slice());
    push_str(&mut line, ";");
    let ghost want = specs@.map_values(
        |p: (String, String)| (p.0@, reexport_var(src@, seq as nat) + seq!['.'] + p.1@),
    );
    let mut es: Vec<ExportEntry> = Vec::new();
    let mut i: usize = 0;
    while i < specs.len()
        invariant
            i <= specs@.len(),
            var@ == reexport_var(src@, seq as nat),
            want == specs@.map_values(
                |p: (String, String)| (p.0@, reexport_var(src@, seq as nat) + seq!['.'] + p.1@),
            ),
            entries_view(es@) == want.take(i as int),
        decreases specs.len() - i,
    {
        let mut v = chars_of(var.as_str());
        v.push('.');
        extend_chars(&mut v, chars_of(specs[i].1.as_str()).as_slice());
        let ghost before = es@;
        let name = specs[i].0.clone();
        let value_js = string_of(v.as_slice());
        assert(name@ == specs@[i as int].0@);
        assert(want[i as int] == (specs@[i as int].0@, var@ + seq!['.'] + specs@[i as int].1@));
        assert(value_js@ == var@ + seq!['.'] + specs@[i as int].1@);
        es.push(ExportEntry { name, value_js });
        assert(entries_view(es@) =~= entries_view(before).push(want[i as int]));
        assert(want.take(i + 1) =~= want.take(i as int).push(want[i as int]));
        i += 1;
    }
    assert(want.take(specs@.len() as int) =~= want);
    (string_of(line.as_slice()), es)
}

/// `export * as name from "s"`: the namespace (with default interop) bound to the import's
/// variable and exported under `name`.
pub fn export_star_as(src: &str, seq: usize, r: &SourceRef, name: &str) -> (out: (String, ExportEntry))
    ensures
        out.0@ == "var "@ + import_var_spec(src@, seq as nat) + " = "@ + namespace_expr_spec(*r, src@, true) + ";"@,
        out.1.name@ == name@,
        out.1.value_js@ == import_var_spec(src@, seq as nat),
{
    let var = import_var(src, seq);
    let mut line: Vec<char> = Vec::new();
    push_str(&mut line, "var ");
    push_str(&mut line, var.as_str());
    push_str(&mut line, " = ");
    extend_chars(&mut line, namespace_chars(r, src, true).as_slice());
    push_str(&mut line, ";");
    (string_of(line.as_slice()), entry(name, var.as_str()))
}

/// `export * from "s"`: the module's names copied, live, onto the exports object and onto
/// `module.exports` (which was already published from it).
pub open spec fn export_star_spec(src: Seq<char>, r: SourceRef, exports_obj: Seq<char>) -> Seq<char> {
    "__reExport("@ + exports_obj + ", "@ + namespace_expr_spec(r, src, false) + ", module.exports);"@
}

pub fn export_star(src: &str, r: &SourceRef, exports_obj: &str) -> (s: String)
    ensures
        s@ == export_star_spec(src@, *r, exports_obj@),
{
    let mut v: Vec<char> = Vec::new();
    push_str(&mut v, "__reExport(");
    push_str(&mut v, exports_obj);
    push_str(&mut v, ", ");
    extend_chars(&mut v, namespace_chars(r, src, false).as_slice());
    push_str(&mut v, ", module.exports);");
    string_of(v.as_slice())
}

/// `export default ...`: a named function or class is exported by its name; anything else
/// is bound to `__tt_default` first.
pub fn default_export(name: Option<&str>) -> (e: ExportEntry)
    ensures
        e.name@ == "default"@,
        e.value_js@ == (match name {
            Some(n) => n@,
            None => "__tt_default"@,
        }),
{
    match name {
        Some(n) => entry("default", n),
        None => entry("default", "__tt_default"),
    }
}

/// `export { local as exported }` of a local binding: read through its import when the local
/// is an imported name, else the local itself.
pub fn local_export(exported: &str, local: &str, access: Option<&Access>) -> (e: ExportEntry)
    ensures
        e.name@ == exported@,
        e.value_js@ == (match access {
            Some(a) => a.var@ + seq!['.'] + a.prop@,
            None => local@,
        }),
{
    match access {
        Some(a) => {
            let mut v = chars_of(a.var.as_str());
            v.push('.');
            extend_chars(&mut v, chars_of(a.prop.as_str()).as_slice());
            ExportEntry { name: string_of(chars_of(exported).as_slice()), value_js: string_of(v.as_slice()) }
        },
        None => entry(exported, local),
    }
}

} // verus!

verus! {

/// The exports object of a lowered module.
pub const EXPORTS_OBJ: &'static str = "__tt_exports";

/// The run-time helpers a lowered module relies on, emitted once per output.
pub const PREAMBLE: &'static str = "var __defProp = Object.defineProperty;
var __getOwnPropNames = Object.getOwnPropertyNames;
var __getOwnPropDesc = Object.getOwnPropertyDescriptor;
var __hasOwnProp = Object.prototype.hasOwnProperty;
var __export = (target, all) => { for (var name in all) __defProp(target, name, { get: all[name], enumerable: true, configurable: true }); };
var __copyProps = (to, from, except, desc) => { if (from && typeof from === \"object\" || typeof from === \"function\") { for (let key of __getOwnPropNames(from)) if (!__hasOwnProp.call(to, key) && key !== except) __defProp(to, key, { get: () => from[key], enumerable: !(desc = __getOwnPropDesc(from, key)) || desc.enumerable, configurable: true }); } return to; };
var __reExport = (target, mod, secondTarget) => (__copyProps(target, mod, \"default\"), secondTarget && __copyProps(secondTarget, mod, \"default\"));
var __toESM = (mod) => (mod && mod.__esModule ? mod : (mod && (typeof mod === \"object\" || typeof mod === \"function\") && !(\"default\" in mod) && Object.defineProperty(mod, \"default\", { value: mod, configurable: true }), mod));
var __toCommonJS = (mod) => __copyProps(__defProp({}, \"__esModule\", { value: true }), mod);
var __commonJS = (cb) => { var mod; return () => (mod || (mod = { exports: {} }, cb(mod.exports, mod)), mod.exports); };
var __esm = (fn) => { var done, res; return () => (done || (done = 1, res = fn()), res); };
";

/// Lines, each followed by a newline.
pub open spec fn lines_text(v: Seq<Seq<char>>) -> Seq<char>
    decreases v.len(),
{
    if v.len() == 0 {
        Seq::empty()
    } else {
        lines_text(v.drop_last()) + v.last() + seq!['\n']
    }
}

/// The getter rows of the export registration.
pub open spec fn export_rows(v: Seq<(Seq<char>, Seq<char>)>) -> Seq<char>
    decreases v.len(),
{
    if v.len() == 0 {
        Seq::empty()
    } else {
        export_rows(v.drop_last()) + "  "@ + quote_key_spec(v.last().0) + ": () => "@ + v.last().1 + ",\n"@
    }
}

pub open spec fn strings_view(v: Seq<String>) -> Seq<Seq<char>> {
    v.map_values(|s: String| s@)
}

/// One module's CommonJS text (without the helpers): the exports object, its getters,
/// `module.exports` published early (so a re-entrant `require` in a cycle sees the live
/// object), then the `require` lines, the re-exports and the body.
pub open spec fn assemble_module_spec(
    require_lines: Seq<Seq<char>>,
    re_exports: Seq<Seq<char>>,
    exports: Seq<(Seq<char>, Seq<char>)>,
    body: Seq<char>,
) -> Seq<char> {
    "var __tt_exports = {};\n"@ + (if exports.len() > 0 {
        "__export(__tt_exports, {\n"@ + export_rows(exports) + "});\n"@
    } else {
        Seq::empty()
    }) + "module.exports = __toCommonJS(__tt_exports);\n"@ + lines_text(require_lines) + lines_text(re_exports) + body
}

fn push_lines(v: &mut Vec<char>, ls: &[String])
    ensures
        final(v)@ == old(v)@ + lines_text(strings_view(ls@)),
{
    let ghost lv = strings_view(ls@);
    let mut i: usize = 0;
    assert(lv.take(0) =~= Seq::<Seq<char>>::empty());
    while i < ls.len()
        invariant
            i <= ls@.len(),
            lv == strings_view(ls@),
            v@ == old(v)@ + lines_text(lv.take(i as int)),
        decreases ls.len() - i,
    {
        assert(lv.take(i + 1).drop_last() =~= lv.take(i as int));
        push_str(v, ls[i].as_str());
        v.push('\n');
        assert(v@ =~= old(v)@ + lines_text(lv.take(i + 1)));
        i += 1;
    }
    assert(lv.take(ls@.len() as int) =~= lv);
}

pub fn assemble_module(require_lines: &[String], re_exports: &[String], exports: &[ExportEntry], body: &str) -> (r: String)
    ensures
        r@ == assemble_module_spec(strings_view(require_lines@), strings_view(re_exports@), entries_view(exports@), body@),
{
    let mut v = chars_of("var __tt_exports = {};\n");
    let ghost ev = entries_view(exports@);
    let ghost head = v@;
    if exports.len() > 0 {
        push_str(&mut v, "__export(__tt_exports, {\n");
        let ghost rows_head = v@;
        let mut i: usize = 0;
        assert(ev.take(0) =~= Seq::<(Seq<char>, Seq<char>)>::empty());
        while i < exports.len()
            invariant
                i <= exports@.len(),
                ev == entries_view(exports@),
                v@ == rows_head + export_rows(ev.take(i as int)),
            decreases exports.len() - i,
        {
            assert(ev.take(i + 1).drop_last() =~= ev.take(i as int));
            push_str(&mut v, "  ");
            push_str(&mut v, quote_key(exports[i].name.as_str()).as_str());
            push_str(&mut v, ": () => ");
            push_str(&mut v, exports[i].value_js.as_str());
            push_str(&mut v, ",\n");
            assert(v@ =~= rows_head + export_rows(ev.take(i + 1)));
            i += 1;
        }
        assert(ev.take(exports@.len() as int) =~= ev);
        push_str(&mut v, "});\n");
    }
    push_str(&mut v, "module.exports = __toCommonJS(__tt_exports);\n");
    push_lines(&mut v, require_lines);
    push_lines(&mut v, re_exports);
    push_str(&mut v, body);
    assert(v@ =~= assemble_module_spec(strings_view(require_lines@), strings_view(re_exports@), ev, body@));
    string_of(v.as_slice())
}

/// An app module's full text: the helpers, then the module.
pub fn assemble(require_lines: &[String], re_exports: &[String], exports: &[ExportEntry], body: &str) -> (r: String)
    ensures
        r@ == PREAMBLE@ + assemble_module_spec(
            strings_view(require_lines@),
            strings_view(re_exports@),
            entries_view(exports@),
            body@,
        ),
{
    let mut v = chars_of(PREAMBLE);
    push_str(&mut v, assemble_module(require_lines, re_exports, exports, body).as_str());
    string_of(v.as_slice())
}

/// Whether the module used ES module syntax at all (a plain script or CommonJS module is
/// left as it is, not wrapped).
pub open spec fn has_module_syntax_spec(require_lines: nat, re_exports: nat, exports: nat, default_rewrite: bool) -> bool {
    !(require_lines == 0 && re_exports == 0 && exports == 0 && !default_rewrite)
}

pub fn has_module_syntax(require_lines: usize, re_exports: usize, exports: usize, default_rewrite: bool) -> (b: bool)
    ensures
        b == has_module_syntax_spec(require_lines as nat, re_exports as nat, exports as nat, default_rewrite),
{
    !(require_lines == 0 && re_exports == 0 && exports == 0 && !default_rewrite)
}

/// The generated body with its first `export default ` turned into the `__tt_default`
/// binding the registration reads.
pub open spec fn rewrite_default_spec(body: Seq<char>) -> Seq<char> {
    match crate::text::find_from(body, "export default "@, 0) {
        Some(i) => body.take(i) + "var __tt_default = "@ + body.skip(i + 15),
        None => body,
    }
}

pub fn rewrite_default_export(body: &str) -> (r: String)
    ensures
        r@ == rewrite_default_spec(body@),
{
    let b = chars_of(body);
    let pat = chars_of("export default ");
    proof {
        reveal_strlit("export default ");
        crate::text::lemma_find_from(body@, "export default "@, 0);
    }
    match crate::text::find_at(b.as_slice(), pat.as_slice(), 0) {
        Some(i) => {
            let mut v = crate::text::slice_take(b.as_slice(), i);
            push_str(&mut v, "var __tt_default = ");
            extend_chars(&mut v, crate::text::slice_skip(b.as_slice(), i + 15));
            assert(v@ =~= rewrite_default_spec(body@));
            string_of(v.as_slice())
        },
        None => string_of(b.as_slice()),
    }
}

} // verus!

verus! {

/// A top-level statement of an ES module, as far as lowering it to CommonJS cares.
pub enum ModuleStmt {
    /// `import ... from "src"`: with specifiers (each with the symbol its local binds, when
    /// known), or a side-effect import without any.
    Import { src: String, sref: SourceRef, specs: Option<Vec<ImportSpec>>, syms: Vec<Option<usize>> },
    /// `export <declaration>` binding these names; the declaration stays in the body.
    ExportDecl { names: Vec<String> },
    /// `export { local as exported, ... } from "src"`, as (exported, local) pairs.
    ReExport { src: String, sref: SourceRef, pairs: Vec<(String, String)> },
    /// `export { local as exported, ... }` of the module's own bindings: (exported, local,
    /// the symbol the local refers to, when known).
    ExportLocal { specs: Vec<(String, String, Option<usize>)> },
    /// `export default ...`, with the name of its function or class where it has one.
    ExportDefault { named: Option<String> },
    /// `export * from "src"`, or `export * as name from "src"`.
    ExportAll { src: String, sref: SourceRef, name: Option<String> },
    /// Any other statement: it stays in the body as it is.
    Other,
}

/// What lowering a module's statements gives: the rewrites of imported locals (symbol,
/// access; a later entry for a symbol wins), the `require` lines, the `export *` lines,
/// the export registrations, and whether an anonymous `export default` must be rewritten
/// in the body.
pub struct ModulePlan {
    pub imports: Vec<(usize, Access)>,
    pub requires: Vec<String>,
    pub re_exports: Vec<String>,
    pub exports: Vec<ExportEntry>,
    pub default_needs_rewrite: bool,
}

/// A plan as plain values; `deferred` holds the local exports, resolved at the end.
pub struct PlanModel {
    pub imports: Seq<(usize, (Seq<char>, Seq<char>))>,
    pub requires: Seq<Seq<char>>,
    pub re_exports: Seq<Seq<char>>,
    pub exports: Seq<(Seq<char>, Seq<char>)>,
    pub deferred: Seq<(Seq<char>, Seq<char>, Option<usize>)>,
    pub rewrite: bool,
}

/// Whether a statement takes the next import number (default exports and other
/// statements do not).
pub open spec fn takes_seq(s: ModuleStmt) -> bool {
    !(s is ExportDefault || s is Other)
}

/// The import numbers taken by `stmts`.
pub open spec fn seq_count(stmts: Seq<ModuleStmt>) -> nat
    decreases stmts.len(),
{
    if stmts.len() == 0 {
        0
    } else if takes_seq(stmts.last()) {
        seq_count(stmts.drop_last()) + 1
    } else {
        seq_count(stmts.drop_last())
    }
}

/// The local rewrites of an import's specifiers, in order: a specifier whose symbol is
/// known and whose local is read through the import object.
pub open spec fn import_accesses(specs: Seq<ImportSpec>, syms: Seq<Option<usize>>, obj: Seq<char>) -> Seq<(usize, (Seq<char>, Seq<char>))>
    decreases specs.len(),
{
    if specs.len() == 0 {
        Seq::empty()
    } else {
        let k = specs.len() - 1;
        let prev = import_accesses(specs.drop_last(), syms, obj);
        if k < syms.len() && syms[k] is Some && access_for(specs[k], obj) is Some {
            prev.push((syms[k]->0, access_for(specs[k], obj)->0))
        } else {
            prev
        }
    }
}

/// The access recorded last for `sym`.
pub open spec fn lookup_access(imports: Seq<(usize, (Seq<char>, Seq<char>))>, sym: usize) -> Option<(Seq<char>, Seq<char>)>
    decreases imports.len(),
{
    if imports.len() == 0 {
        None
    } else if imports.last().0 == sym {
        Some(imports.last().1)
    } else {
        lookup_access(imports.drop_last(), sym)
    }
}

/// One statement applied to the plan; `seq` is the import number it takes.
pub open spec fn plan_step(m: PlanModel, s: ModuleStmt, seq: nat, exports_obj: Seq<char>) -> PlanModel {
    match s {
        ModuleStmt::Import { src, sref, specs, syms } => match specs {
            None => PlanModel { requires: m.requires.push(bare_import_spec(src@, seq, sref)), ..m },
            Some(v) => PlanModel {
                requires: m.requires.push(import_line_spec(src@, seq, sref, v@)),
                imports: m.imports + import_accesses(v@, syms@, access_object(sref, src@, seq, v@)),
                ..m
            },
        },
        ModuleStmt::ExportDecl { names } => PlanModel {
            exports: m.exports + names@.map_values(|n: String| (n@, n@)),
            ..m
        },
        ModuleStmt::ReExport { src, sref, pairs } => PlanModel {
            requires: m.requires.push(
                "var "@ + reexport_var(src@, seq) + " = "@ + namespace_expr_spec(sref, src@, false) + ";"@,
            ),
            exports: m.exports + pairs@.map_values(
                |p: (String, String)| (p.0@, reexport_var(src@, seq) + seq!['.'] + p.1@),
            ),
            ..m
        },
        ModuleStmt::ExportLocal { specs } => PlanModel {
            deferred: m.deferred + specs@.map_values(|e: (String, String, Option<usize>)| (e.0@, e.1@, e.2)),
            ..m
        },
        ModuleStmt::ExportDefault { named } => match named {
            Some(n) => PlanModel { exports: m.exports.push(("default"@, n@)), ..m },
            None => PlanModel { exports: m.exports.push(("default"@, "__tt_default"@)), rewrite: true, ..m },
        },
        ModuleStmt::ExportAll { src, sref, name } => match name {
            Some(n) => PlanModel {
                requires: m.requires.push(
                    "var "@ + import_var_spec(src@, seq) + " = "@ + namespace_expr_spec(sref, src@, true) + ";"@,
                ),
                exports: m.exports.push((n@, import_var_spec(src@, seq))),
                ..m
            },
            None => PlanModel { re_exports: m.re_exports.push(export_star_spec(src@, sref, exports_obj)), ..m },
        },
        ModuleStmt::Other => m,
    }
}

/// The statements applied in order, before local exports are resolved.
pub open spec fn plan_fold(stmts: Seq<ModuleStmt>, exports_obj: Seq<char>) -> PlanModel
    decreases stmts.len(),
{
    if stmts.len() == 0 {
        PlanModel {
            imports: Seq::empty(),
            requires: Seq::empty(),
            re_exports: Seq::empty(),
            exports: Seq::empty(),
            deferred: Seq::empty(),
            rewrite: false,
        }
    } else {
        plan_step(plan_fold(stmts.drop_last(), exports_obj), stmts.last(), seq_count(stmts), exports_obj)
    }
}

/// A local export's registration: read through the import its local came from, if any.
pub open spec fn resolve_local(d: (Seq<char>, Seq<char>, Option<usize>), imports: Seq<(usize, (Seq<char>, Seq<char>))>) -> (Seq<char>, Seq<char>) {
    match d.2 {
        Some(sym) => match lookup_access(imports, sym) {
            Some(a) => (d.0, a.0 + seq!['.'] + a.1),
            None => (d.0, d.1),
        },
        None => (d.0, d.1),
    }
}

/// The exports of a module: those met in order, then its local exports.
pub open spec fn plan_exports(m: PlanModel) -> Seq<(Seq<char>, Seq<char>)> {
    m.exports + m.deferred.map_values(|d: (Seq<char>, Seq<char>, Option<usize>)| resolve_local(d, m.imports))
}

pub open spec fn imports_view(v: Seq<(usize, Access)>) -> Seq<(usize, (Seq<char>, Seq<char>))> {
    v.map_values(|e: (usize, Access)| (e.0, (e.1.var@, e.1.prop@)))
}

fn copy_access(a: &Access) -> (r: Access)
    ensures
        r.var@ == a.var@,
        r.prop@ == a.prop@,
{
    Access { var: a.var.clone(), prop: a.prop.clone() }
}

fn find_access(imports: &Vec<(usize, Access)>, sym: usize) -> (r: Option<Access>)
    ensures
        access_view(r) == lookup_access(imports_view(imports@), sym),
{
    let ghost iv = imports_view(imports@);
    let mut k: usize = imports.len();
    assert(iv.take(k as int) =~= iv);
    while k > 0
        invariant
            k <= imports@.len(),
            iv == imports_view(imports@),
            lookup_access(iv, sym) == lookup_access(iv.take(k as int), sym),
        decreases k,
    {
        assert(iv.take(k as int).drop_last() =~= iv.take(k - 1));
        assert(iv.take(k as int).last() == iv[k - 1]);
        if imports[k - 1].0 == sym {
            return Some(copy_access(&imports[k - 1].1));
        }
        k -= 1;
    }
    None
}

pub open spec fn deferred_view(d: Seq<(String, String, Option<usize>)>) -> Seq<(Seq<char>, Seq<char>, Option<usize>)> {
    d.map_values(|e: (String, String, Option<usize>)| (e.0@, e.1@, e.2))
}

pub open spec fn plan_model(p: &ModulePlan, d: Seq<(String, String, Option<usize>)>) -> PlanModel {
    PlanModel {
        imports: imports_view(p.imports@),
        requires: crate::text::strs(p.requires@),
        re_exports: crate::text::strs(p.re_exports@),
        exports: entries_view(p.exports@),
        deferred: deferred_view(d),
        rewrite: p.default_needs_rewrite,
    }
}

fn push_line(v: &mut Vec<String>, line: String)
    ensures
        crate::text::strs(final(v)@) == crate::text::strs(old(v)@).push(line@),
{
    let ghost b = crate::text::strs(v@);
    v.push(line);
    assert(crate::text::strs(v@) =~= b.push(line@));
}

fn push_entries(v: &mut Vec<ExportEntry>, es: Vec<ExportEntry>)
    ensures
        entries_view(final(v)@) == entries_view(old(v)@) + entries_view(es@),
{
    let mut es = es;
    let ghost a = v@;
    let ghost b = es@;
    v.append(&mut es);
    assert(entries_view(v@) =~= entries_view(a) + entries_view(b));
}

fn push_entry(v: &mut Vec<ExportEntry>, e: ExportEntry)
    ensures
        entries_view(final(v)@) == entries_view(old(v)@).push((e.name@, e.value_js@)),
{
    let ghost b = entries_view(v@);
    v.push(e);
    assert(entries_view(v@) =~= b.push((e.name@, e.value_js@)));
}

fn lower_import_into(p: &mut ModulePlan, src: &str, sref: &SourceRef, v: &Vec<ImportSpec>, syms: &Vec<Option<usize>>, seq: usize)
    ensures
        crate::text::strs(final(p).requires@) == crate::text::strs(old(p).requires@).push(
            import_line_spec(src@, seq as nat, *sref, v@),
        ),
        imports_view(final(p).imports@) == imports_view(old(p).imports@) + import_accesses(
            v@,
            syms@,
            access_object(*sref, src@, seq as nat, v@),
        ),
        final(p).re_exports@ == old(p).re_exports@,
        final(p).exports@ == old(p).exports@,
        final(p).default_needs_rewrite == old(p).default_needs_rewrite,
{
    let (line, acc) = lower_import(src, seq, sref, v.as_slice());
    push_line(&mut p.requires, line);
    let ghost obj = access_object(*sref, src@, seq as nat, v@);
    let ghost base = imports_view(p.imports@);
    let mut k: usize = 0;
    assert(v@.take(0) =~= Seq::<ImportSpec>::empty());
    while k < v.len()
        invariant
            k <= v@.len(),
            acc@.len() == v@.len(),
            forall|i: int| 0 <= i < v@.len() ==> access_view(#[trigger] acc@[i]) == access_for(v@[i], obj),
            imports_view(p.imports@) == base + import_accesses(v@.take(k as int), syms@, obj),
            crate::text::strs(p.requires@) == crate::text::strs(old(p).requires@).push(
                import_line_spec(src@, seq as nat, *sref, v@),
            ),
            p.re_exports@ == old(p).re_exports@,
            p.exports@ == old(p).exports@,
            p.default_needs_rewrite == old(p).default_needs_rewrite,
        decreases v@.len() - k,
    {
        assert(v@.take(k + 1).drop_last() =~= v@.take(k as int));
        assert(v@.take(k + 1)[k as int] == v@[k as int]);
        assert(access_view(acc@[k as int]) == access_for(v@[k as int], obj));
        if k < syms.len() {
            match (syms[k], &acc[k]) {
                (Some(sym), Some(a)) => {
                    let ghost b = imports_view(p.imports@);
                    p.imports.push((sym, copy_access(a)));
                    assert(imports_view(p.imports@) =~= b.push((sym, (a.var@, a.prop@))));
                },
                _ => {},
            }
        }
        k += 1;
    }
    assert(v@.take(v@.len() as int) =~= v@);
}

fn apply_stmt(
    p: &mut ModulePlan,
    d: &mut Vec<(String, String, Option<usize>)>,
    s: &ModuleStmt,
    seq: usize,
    exports_obj: &str,
)
    ensures
        plan_model(final(p), final(d)@) == plan_step(plan_model(old(p), old(d)@), *s, seq as nat, exports_obj@),
{
    let ghost m = plan_model(p, d@);
    match s {
        ModuleStmt::Import { src, sref, specs, syms } => match specs {
            None => {
                push_line(&mut p.requires, bare_import(src.as_str(), seq, sref));
            },
            Some(v) => {
                lower_import_into(p, src.as_str(), sref, v, syms, seq);
            },
        },
        ModuleStmt::ExportDecl { names } => {
            push_entries(&mut p.exports, declared_exports(names.as_slice()));
        },
        ModuleStmt::ReExport { src, sref, pairs } => {
            let (line, es) = reexport_from(src.as_str(), seq, sref, pairs.as_slice());
            push_line(&mut p.requires, line);
            push_entries(&mut p.exports, es);
        },
        ModuleStmt::ExportLocal { specs } => {
            let mut k: usize = 0;
            let ghost base = deferred_view(d@);
            assert(specs@.take(0) =~= Seq::<(String, String, Option<usize>)>::empty());
            while k < specs.len()
                invariant
                    k <= specs@.len(),
                    deferred_view(d@) == base + deferred_view(specs@.take(k as int)),
                decreases specs@.len() - k,
            {
                let e = (specs[k].0.clone(), specs[k].1.clone(), specs[k].2);
                let ghost b = deferred_view(d@);
                d.push(e);
                assert(deferred_view(d@) =~= b.push((specs@[k as int].0@, specs@[k as int].1@, specs@[k as int].2)));
                assert(deferred_view(specs@.take(k + 1)) =~= deferred_view(specs@.take(k as int)).push(
                    (specs@[k as int].0@, specs@[k as int].1@, specs@[k as int].2),
                ));
                k += 1;
            }
            assert(specs@.take(specs@.len() as int) =~= specs@);
        },
        ModuleStmt::ExportDefault { named } => {
            match named {
                Some(n) => {
                    push_entry(&mut p.exports, default_export(Some(n.as_str())));
                },
                None => {
                    push_entry(&mut p.exports, default_export(None));
                    p.default_needs_rewrite = true;
                },
            }
            proof {
                reveal_strlit("default");
                reveal_strlit("__tt_default");
            }
        },
        ModuleStmt::ExportAll { src, sref, name } => match name {
            Some(n) => {
                let (line, e) = export_star_as(src.as_str(), seq, sref, n.as_str());
                push_line(&mut p.requires, line);
                push_entry(&mut p.exports, e);
            },
            None => {
                push_line(&mut p.re_exports, export_star(src.as_str(), sref, exports_obj));
            },
        },
        ModuleStmt::Other => {},
    }
    assert(plan_model(p, d@) =~= plan_step(m, *s, seq as nat, exports_obj@));
}

/// Lower a module's top-level statements (see `plan_fold` and `plan_exports`): the import
/// rewrites, `require` lines and `export *` lines in statement order, the exports met in
/// order followed by the local exports (read through an import where their local is one),
/// and whether an anonymous default export needs its body rewrite.
pub fn plan_module(stmts: &[ModuleStmt], exports_obj: &str) -> (r: ModulePlan)
    ensures
        imports_view(r.imports@) == plan_fold(stmts@, exports_obj@).imports,
        crate::text::strs(r.requires@) == plan_fold(stmts@, exports_obj@).requires,
        crate::text::strs(r.re_exports@) == plan_fold(stmts@, exports_obj@).re_exports,
        entries_view(r.exports@) == plan_exports(plan_fold(stmts@, exports_obj@)),
        r.default_needs_rewrite == plan_fold(stmts@, exports_obj@).rewrite,
{
    let mut p = ModulePlan {
        imports: Vec::new(),
        requires: Vec::new(),
        re_exports: Vec::new(),
        exports: Vec::new(),
        default_needs_rewrite: false,
    };
    let mut d: Vec<(String, String, Option<usize>)> = Vec::new();
    let mut seq: usize = 0;
    let mut i: usize = 0;
    assert(stmts@.take(0) =~= Seq::<ModuleStmt>::empty());
    assert(imports_view(p.imports@) =~= Seq::<(usize, (Seq<char>, Seq<char>))>::empty());
    assert(crate::text::strs(p.requires@) =~= Seq::<Seq<char>>::empty());
    assert(crate::text::strs(p.re_exports@) =~= Seq::<Seq<char>>::empty());
    assert(entries_view(p.exports@) =~= Seq::<(Seq<char>, Seq<char>)>::empty());
    assert(deferred_view(d@) =~= Seq::<(Seq<char>, Seq<char>, Option<usize>)>::empty());
    while i < stmts.len()
        invariant
            i <= stmts@.len(),
            seq as nat == seq_count(stmts@.take(i as int)),
            seq <= i,
            plan_model(&p, d@) == plan_fold(stmts@.take(i as int), exports_obj@),
        decreases stmts@.len() - i,
    {
        assert(stmts@.take(i + 1).drop_last() =~= stmts@.take(i as int));
        assert(stmts@.take(i + 1).last() == stmts@[i as int]);
        let takes = match &stmts[i] {
            ModuleStmt::ExportDefault { .. } => false,
            ModuleStmt::Other => false,
            _ => true,
        };
        if takes {
            seq = seq + 1;
        }
        apply_stmt(&mut p, &mut d, &stmts[i], seq, exports_obj);
        i += 1;
    }
    assert(stmts@.take(stmts@.len() as int) =~= stmts@);
    let ghost m = plan_fold(stmts@, exports_obj@);
    let ghost base = entries_view(p.exports@);
    let ghost dv = deferred_view(d@);
    let mut k: usize = 0;
    assert(dv.take(0) =~= Seq::<(Seq<char>, Seq<char>, Option<usize>)>::empty());
    while k < d.len()
        invariant
            k <= d@.len(),
            dv == deferred_view(d@),
            dv == m.deferred,
            imports_view(p.imports@) == m.imports,
            entries_view(p.exports@) == base + dv.take(k as int).map_values(
                |x: (Seq<char>, Seq<char>, Option<usize>)| resolve_local(x, m.imports),
            ),
            crate::text::strs(p.requires@) == m.requires,
            crate::text::strs(p.re_exports@) == m.re_exports,
            p.default_needs_rewrite == m.rewrite,
        decreases d@.len() - k,
    {
        let acc = match d[k].2 {
            Some(sym) => find_access(&p.imports, sym),
            None => None,
        };
        let e = local_export(d[k].0.as_str(), d[k].1.as_str(), acc.as_ref());
        let ghost want = resolve_local(dv[k as int], m.imports);
        assert(dv[k as int] == (d@[k as int].0@, d@[k as int].1@, d@[k as int].2));
        assert((e.name@, e.value_js@) == want);
        push_entry(&mut p.exports, e);
        assert(dv.take(k + 1).map_values(|x: (Seq<char>, Seq<char>, Option<usize>)| resolve_local(x, m.imports))
            =~= dv.take(k as int).map_values(|x: (Seq<char>, Seq<char>, Option<usize>)| resolve_local(x, m.imports)).push(want));
        k += 1;
    }
    assert(dv.take(dv.len() as int) =~= dv);
    p
}

} // verus!
