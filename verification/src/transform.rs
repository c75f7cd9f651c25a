//! TypeScript/JSX to plain JavaScript through oxc, for the files that need it; file-name
//! and extension rules of paths.

use vstd::prelude::*;

use oxc_allocator::Allocator;
use oxc_codegen::Codegen;
use oxc_parser::{Parser, ParserReturn};
use oxc_semantic::SemanticBuilder;
use oxc_span::SourceType;
use oxc_transformer::HelperLoaderMode::External;
use oxc_transformer::{DecoratorOptions, TransformOptions, Transformer};
use std::path::Path;

use crate::text::{chars_eq, chars_of, rfind_chars, rfind_spec, slice_skip, split_char, split_spec};

verus! {

/// The last piece that names something (not empty, not `.`).
pub open spec fn last_name(ps: Seq<Seq<char>>) -> Option<Seq<char>>
    decreases ps.len(),
{
    if ps.len() == 0 {
        None
    } else if ps.last().len() > 0 && ps.last() != "."@ {
        Some(ps.last())
    } else {
        last_name(ps.drop_last())
    }
}

/// The file name of a `/`-separated path (as `Path::file_name`): its last component, unless
/// that is `..` or there is none.
pub open spec fn file_name_spec(p: Seq<char>) -> Option<Seq<char>> {
    match last_name(split_spec(p, '/')) {
        Some(n) => if n == ".."@ {
            None
        } else {
            Some(n)
        },
        None => None,
    }
}

/// The extension of a path (as `Path::extension`): what follows the last `.` of the file
/// name, unless that dot starts the name.
pub open spec fn extension_spec(p: Seq<char>) -> Option<Seq<char>> {
    match file_name_spec(p) {
        None => None,
        Some(n) => match rfind_spec(n, seq!['.']) {
            None => None,
            Some(d) => if d == 0 {
                None
            } else {
                Some(n.skip(d + 1))
            },
        },
    }
}

pub fn file_name(p: &str) -> (r: Option<Vec<char>>)
    ensures
        match r {
            Some(v) => file_name_spec(p@) == Some(v@),
            None => file_name_spec(p@) is None,
        },
{
    let c = chars_of(p);
    let pieces = split_char(c.as_slice(), '/');
    let ghost ps = split_spec(p@, '/');
    let mut k: usize = pieces.len();
    assert(ps.take(k as int) =~= ps);
    while k > 0
        invariant
            k <= pieces@.len() == ps.len(),
            ps == split_spec(p@, '/'),
            forall|j: int| 0 <= j < pieces@.len() ==> #[trigger] pieces@[j]@ == ps[j],
            last_name(ps) == last_name(ps.take(k as int)),
        decreases k,
    {
        assert(ps.take(k as int).drop_last() =~= ps.take(k - 1));
        let piece = &pieces[k - 1];
        assert(ps.take(k as int).last() == piece@);
        if piece.len() > 0 && !chars_eq(piece.as_slice(), chars_of(".").as_slice()) {
            if chars_eq(piece.as_slice(), chars_of("..").as_slice()) {
                return None;
            }
            return Some(piece.clone());
        }
        k -= 1;
    }
    None
}

pub fn extension(p: &str) -> (r: Option<Vec<char>>)
    ensures
        match r {
            Some(v) => extension_spec(p@) == Some(v@),
            None => extension_spec(p@) is None,
        },
{
    match file_name(p) {
        None => None,
        Some(n) => {
            let dot: Vec<char> = vec!['.'];
            assert(dot@ =~= seq!['.']);
            match rfind_chars(n.as_slice(), dot.as_slice()) {
                None => None,
                Some(d) => {
                    if d == 0 {
                        None
                    } else {
                        let e = slice_skip(n.as_slice(), d + 1);
                        Some(crate::text::slice_take(e, e.len()))
                    }
                },
            }
        },
    }
}

/// The extension is one of `exts`.
pub open spec fn ext_in(p: Seq<char>, exts: Seq<Seq<char>>) -> bool {
    match extension_spec(p) {
        Some(e) => exts.contains(e),
        None => false,
    }
}

pub(crate) fn ext_is_one_of(p: &str, exts: &[&str]) -> (b: bool)
    ensures
        b == ext_in(p@, exts@.map_values(|s: &str| s@)),
{
    let ghost es = exts@.map_values(|s: &str| s@);
    match extension(p) {
        None => false,
        Some(e) => {
            let mut i: usize = 0;
            while i < exts.len()
                invariant
                    i <= exts@.len(),
                    es == exts@.map_values(|s: &str| s@),
                    extension_spec(p@) == Some(e@),
                    forall|j: int| 0 <= j < i ==> es[j] != e@,
                decreases exts@.len() - i,
            {
                if chars_eq(e.as_slice(), chars_of(exts[i]).as_slice()) {
                    assert(es[i as int] == e@);
                    return true;
                }
                i += 1;
            }
            false
        },
    }
}

/// The extensions oxc must lower before V8 can compile the file.
pub open spec fn transform_exts() -> Seq<Seq<char>> {
    seq!["ts"@, "tsx"@, "jsx"@, "mts"@, "cts"@]
}

/// Whether a file needs transforming (TypeScript or JSX).
pub fn needs_transform(path: &str) -> (b: bool)
    ensures
        b == ext_in(path@, transform_exts()),
{
    let exts = ["ts", "tsx", "jsx", "mts", "cts"];
    let r = ext_is_one_of(path, &exts);
    assert(exts@.map_values(|s: &str| s@) =~= transform_exts());
    r
}

/// The most non-blank characters handed to oxc in one call (see `oxc_input_ok`).
pub const MAX_OXC_CHARS: usize = 256;

/// Space, tab, line feed and carriage return.
pub open spec fn is_blank(c: char) -> bool {
    c == ' ' || c == '\t' || c == '\n' || c == '\r'
}

/// The number of characters of `s` that are not blank.
pub open spec fn nonblank_count(s: Seq<char>) -> nat
    decreases s.len(),
{
    if s.len() == 0 {
        0
    } else if is_blank(s.last()) {
        nonblank_count(s.drop_last())
    } else {
        nonblank_count(s.drop_last()) + 1
    }
}

/// Source small enough to hand to oxc. Its parser, semantic builder, transformer and code
/// generator recurse once or more per level of nesting, whatever the construct (brackets,
/// unary, binary and conditional chains, arrows, JSX, nested statements), with no depth
/// guard, and every level takes at least one non-blank character; so the non-blank
/// characters bound the depth of every recursion. On the 2 MiB stack Rust gives a spawned
/// thread, the costliest input found per character (a run of unclosed `(`) fits at 500
/// characters and overflows at 600; the bound keeps a factor of two below that.
pub open spec fn oxc_input_ok(src: Seq<char>) -> bool {
    nonblank_count(src) <= MAX_OXC_CHARS
}

/// The number of non-blank characters of `src` (`nonblank_count`).
pub fn nonblank_chars(src: &str) -> (r: usize)
    ensures
        r == nonblank_count(src@),
{
    let c = chars_of(src);
    let mut k: usize = 0;
    let mut n: usize = 0;
    while k < c.len()
        invariant
            k <= c@.len(),
            c@ == src@,
            n == nonblank_count(c@.take(k as int)),
            n <= k,
        decreases c@.len() - k,
    {
        assert(c@.take(k + 1).drop_last() =~= c@.take(k as int));
        let x = c[k];
        if !(x == ' ' || x == '\t' || x == '\n' || x == '\r') {
            n = n + 1;
        }
        k += 1;
    }
    assert(c@.take(k as int) =~= c@);
    n
}

/// Whether `src` may be handed to oxc (`oxc_input_ok`).
pub fn fits_oxc(src: &str) -> (b: bool)
    ensures
        b == oxc_input_ok(src@),
{
    nonblank_chars(src) <= MAX_OXC_CHARS
}

/// What oxc yields for `src` as the file `path`: parse, semantic analysis, the transform with
/// default options, then codegen. `Err` carries the parse, transform or file-type error.
pub uninterp spec fn oxc_transform_result(path: Seq<char>, src: Seq<char>) -> Result<Seq<char>, Seq<char>>;

pub open spec fn res_view(r: Result<String, String>) -> Result<Seq<char>, Seq<char>> {
    match r {
        Ok(s) => Ok(s@),
        Err(e) => Err(e@),
    }
}

/// oxc's pipeline (`Parser::parse`, `SemanticBuilder::build`, `Transformer::build_with_scoping`
/// with `TransformOptions::default()`, `Codegen::build`) on `src` as the file `path`; the
/// contract names its result. These passes recurse without a depth guard, and a stack
/// overflow aborts the process; `requires` bounds the source's non-blank characters
/// (`oxc_input_ok`), which bounds every kind of nesting, for a call made with at least the
/// 2 MiB stack Rust gives a spawned thread.
#[verifier::external_body]
fn oxc_transform(path: &str, src: &str) -> (r: Result<String, String>)
    requires
        oxc_input_ok(src@),
    ensures
        res_view(r) == oxc_transform_result(path@, src@),
{
    let a = Allocator::default();
    let p = std::path::Path::new(path);
    let st = SourceType::from_path(p).map_err(|e| format!("source type: {e:?}"))?;
    let parsed = Parser::new(&a, src, st).parse();
    if !parsed.errors.is_empty() {
        return Err(format!("parse errors: {:?}", parsed.errors));
    }
    let mut program = parsed.program;
    let scoping = SemanticBuilder::new().build(&program).semantic.into_scoping();
    let ret = Transformer::new(&a, p, &TransformOptions::default()).build_with_scoping(scoping, &mut program);
    if !ret.errors.is_empty() {
        return Err(format!("transform errors: {:?}", ret.errors));
    }
    Ok(Codegen::new().build(&program).code)
}

/// What oxc yields for `src` as the file `path` with TypeScript legacy decorators lowered
/// with `emitDecoratorMetadata` (no strict-null elision of `design:type`, helpers left as
/// global `babelHelpers` calls). `Err` carries the parse, transform or file-type error.
pub uninterp spec fn oxc_legacy_transform_result(path: Seq<char>, src: Seq<char>) -> Result<Seq<char>, Seq<char>>;

/// oxc's pipeline as in `oxc_transform`, with `TransformOptions` set for legacy decorators:
/// `decorator.legacy`, `decorator.emit_decorator_metadata`, `decorator.strict_null_checks =
/// false` and `helper_loader.mode = External`; the contract names its result. Its
/// `requires` bounds the source as for `oxc_transform`.
#[verifier::external_body]
fn oxc_legacy_transform(path: &str, src: &str) -> (r: Result<String, String>)
    requires
        oxc_input_ok(src@),
    ensures
        res_view(r) == oxc_legacy_transform_result(path@, src@),
{
    let a = Allocator::default();
    let p = Path::new(path);
    let ParserReturn { mut program, errors, .. } = Parser::new(&a, src, SourceType::from_path(p).map_err(|e| format!("source type: {e:?}"))?).parse();
    if !errors.is_empty() { return Err(format!("parse errors: {errors:?}")); }
    let mut o = TransformOptions::default();
    o.decorator = DecoratorOptions { legacy: true, emit_decorator_metadata: true, strict_null_checks: false };
    o.helper_loader.mode = External;
    let errors = Transformer::new(&a, p, &o).build_with_scoping(SemanticBuilder::new().build(&program).semantic.into_scoping(), &mut program).errors;
    if !errors.is_empty() { return Err(format!("transform errors: {errors:?}")); }
    Ok(Codegen::new().build(&program).code)
}

/// What `transform_with` yields: the default lowering, or the legacy-decorator one.
pub open spec fn transform_with_spec(path: Seq<char>, src: Seq<char>, legacy_decorators: bool) -> Result<Seq<char>, Seq<char>> {
    if legacy_decorators {
        oxc_legacy_transform_result(path, src)
    } else {
        oxc_transform_result(path, src)
    }
}

/// Transform a TypeScript/JSX source file to plain JavaScript; with `legacy_decorators`,
/// TypeScript legacy decorators and their metadata are lowered too (as tsc does).
pub fn transform_with(path: &str, src: &str, legacy_decorators: bool) -> (r: Result<String, String>)
    requires
        oxc_input_ok(src@),
    ensures
        res_view(r) == transform_with_spec(path@, src@, legacy_decorators),
{
    if legacy_decorators {
        oxc_legacy_transform(path, src)
    } else {
        oxc_transform(path, src)
    }
}

/// Transform a TypeScript/JSX source file to plain JavaScript.
pub fn transform(path: &str, src: &str) -> (r: Result<String, String>)
    requires
        oxc_input_ok(src@),
    ensures
        res_view(r) == oxc_transform_result(path@, src@),
{
    transform_with(path, src, false)
}

/// Transform a TypeScript file lowering legacy decorators with their `design:*` metadata
/// (what NestJS-style classes need at run time); module syntax is kept.
pub fn transform_decorators_with_metadata(path: &str, src: &str) -> (r: Result<String, String>)
    requires
        oxc_input_ok(src@),
    ensures
        res_view(r) == oxc_legacy_transform_result(path@, src@),
{
    transform_with(path, src, true)
}

/// Transform only the files that need it; other sources pass through unchanged.
pub fn maybe_transform(path: &str, src: String) -> (r: Result<String, String>)
    requires
        ext_in(path@, transform_exts()) ==> oxc_input_ok(src@),
    ensures
        ext_in(path@, transform_exts()) ==> res_view(r) == oxc_transform_result(path@, src@),
        !ext_in(path@, transform_exts()) ==> r == Ok::<String, String>(src),
{
    if needs_transform(path) {
        transform(path, src.as_str())
    } else {
        Ok(src)
    }
}

} // verus!

verus! {

/// Transform-cache hits and misses over the process (each counter wraps, as an atomic
/// add does).
#[derive(Clone, Copy, PartialEq, Eq, Structural, Debug)]
pub struct CacheStats {
    pub hits: u64,
    pub misses: u64,
}

impl CacheStats {
    pub fn new() -> (c: Self)
        ensures
            c.hits == 0 && c.misses == 0,
    {
        CacheStats { hits: 0, misses: 0 }
    }

    /// Count a cache hit.
    pub fn hit(&mut self)
        ensures
            final(self).hits == (if old(self).hits == u64::MAX {
                0
            } else {
                old(self).hits + 1
            }),
            final(self).misses == old(self).misses,
    {
        self.hits = self.hits.wrapping_add(1);
    }

    /// Count a cache miss.
    pub fn miss(&mut self)
        ensures
            final(self).misses == (if old(self).misses == u64::MAX {
                0
            } else {
                old(self).misses + 1
            }),
            final(self).hits == old(self).hits,
    {
        self.misses = self.misses.wrapping_add(1);
    }
}

/// The transform cache's (hits, misses) so far.
pub fn transform_cache_stats(c: &CacheStats) -> (r: (u64, u64))
    ensures
        r == (c.hits, c.misses),
{
    (c.hits, c.misses)
}

} // verus!

