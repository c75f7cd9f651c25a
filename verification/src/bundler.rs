//! The package bundler's plan: which module of a package's relative import graph is
//! visited next (each once, at most a fixed number), its id, the stubs that stand for
//! assets, and the text that wraps each module and starts the entry.

use vstd::prelude::*;

use crate::launcher::starts_with;
use crate::text::{chars_of, dec_spec, extend_chars, string_of, strs, u64_dec};
use crate::transform::ext_in;

verus! {

/// The most modules a bundle takes before it gives up.
pub const MAX_MODULES: usize = 4000;

/// A specifier relative to its importer (`./` or `../`).
pub open spec fn is_relative_spec(spec: Seq<char>) -> bool {
    starts_with(spec, "./"@) || starts_with(spec, "../"@)
}

pub fn is_relative(spec: &str) -> (b: bool)
    ensures
        b == is_relative_spec(spec@),
{
    let s = chars_of(spec);
    crate::launcher::starts_with_exec(s.as_slice(), chars_of("./").as_slice())
        || crate::launcher::starts_with_exec(s.as_slice(), chars_of("../").as_slice())
}

/// The module that stands for an asset: an empty object for stylesheets, an empty string
/// for images; other files are real modules.
pub open spec fn asset_stub_spec(path: Seq<char>) -> Option<Seq<char>> {
    if ext_in(path, seq!["css"@, "scss"@, "sass"@, "less"@, "styl"@]) {
        Some("module.exports = {};"@)
    } else if ext_in(path, seq!["svg"@, "png"@, "jpg"@, "jpeg"@, "gif"@, "webp"@]) {
        Some("module.exports = \"\";"@)
    } else {
        None
    }
}

pub fn asset_stub(path: &str) -> (r: Option<String>)
    ensures
        crate::coverage::opt_string(r) == asset_stub_spec(path@),
{
    let empty = ["css", "scss", "sass", "less", "styl"];
    let text = ["svg", "png", "jpg", "jpeg", "gif", "webp"];
    assert(empty@.map_values(|x: &str| x@) =~= seq!["css"@, "scss"@, "sass"@, "less"@, "styl"@]);
    assert(text@.map_values(|x: &str| x@) =~= seq!["svg"@, "png"@, "jpg"@, "jpeg"@, "gif"@, "webp"@]);
    if crate::transform::ext_is_one_of(path, &empty) {
        Some(string_of(chars_of("module.exports = {};").as_slice()))
    } else if crate::transform::ext_is_one_of(path, &text) {
        Some(string_of(chars_of("module.exports = \"\";").as_slice()))
    } else {
        None
    }
}

/// The walk of a package's relative import graph: the modules visited so far (a module's
/// id is its index) and the modules still to visit (taken from the end).
pub struct BundlePlan {
    pub order: Vec<String>,
    pub queue: Vec<String>,
}

/// Each module is visited once.
pub open spec fn plan_wf(p: &BundlePlan) -> bool {
    strs(p.order@).no_duplicates()
}

/// The next step of the walk.
pub enum Next {
    /// Nothing is left to visit.
    Done,
    /// The graph is larger than a bundle may be.
    TooMany,
    /// Visit this module; it got this id.
    Visit(String, usize),
}

impl BundlePlan {
    /// A walk that starts at the package entry.
    pub fn start(entry: &str) -> (p: BundlePlan)
        ensures
            plan_wf(&p),
            p.order@.len() == 0,
            strs(p.queue@) == seq![entry@],
    {
        let mut q: Vec<String> = Vec::new();
        q.push(entry.to_owned());
        let p = BundlePlan { order: Vec::new(), queue: q };
        assert(strs(p.queue@) =~= seq![entry@]);
        assert(strs(p.order@) =~= Seq::<Seq<char>>::empty());
        p
    }
}

fn string_in(v: &[String], s: &String) -> (b: bool)
    ensures
        b == strs(v@).contains(s@),
{
    let mut i: usize = 0;
    while i < v.len()
        invariant
            i <= v@.len(),
            forall|j: int| 0 <= j < i ==> strs(v@)[j] != s@,
        decreases v@.len() - i,
    {
        if v[i] == *s {
            assert(strs(v@)[i as int] == s@);
            return true;
        }
        i += 1;
    }
    false
}

/// The index of the last queue entry not yet visited, if any.
pub open spec fn last_unvisited(q: Seq<Seq<char>>, order: Seq<Seq<char>>) -> Option<int>
    decreases q.len(),
{
    if q.len() == 0 {
        None
    } else if !order.contains(q.last()) {
        Some(q.len() - 1)
    } else {
        last_unvisited(q.drop_last(), order)
    }
}

/// `last_unvisited` finds the last entry outside `order`: every entry after it (every entry,
/// where there is none) is visited already.
pub proof fn lemma_last_unvisited(q: Seq<Seq<char>>, order: Seq<Seq<char>>)
    ensures
        match last_unvisited(q, order) {
            None => forall|k: int| 0 <= k < q.len() ==> order.contains(#[trigger] q[k]),
            Some(j) => {
                &&& 0 <= j < q.len()
                &&& !order.contains(q[j])
                &&& forall|k: int| j < k < q.len() ==> order.contains(#[trigger] q[k])
            },
        },
    decreases q.len(),
{
    if q.len() > 0 && order.contains(q.last()) {
        lemma_last_unvisited(q.drop_last(), order);
        assert forall|k: int| 0 <= k < q.len() - 1 implies #[trigger] q[k] == q.drop_last()[k] by {}
    }
}

/// Take modules off the end of the queue, skipping visited ones; the first unvisited one
/// gets the next id, unless the bundle is already full.
pub fn next_module(p: &mut BundlePlan) -> (n: Next)
    requires
        plan_wf(old(p)),
    ensures
        plan_wf(final(p)),
        match last_unvisited(strs(old(p).queue@), strs(old(p).order@)) {
            None => {
                &&& n is Done
                &&& final(p).queue@.len() == 0
                &&& final(p).order@ == old(p).order@
            },
            Some(j) => {
                &&& strs(final(p).queue@) == strs(old(p).queue@).take(j)
                &&& if old(p).order@.len() >= MAX_MODULES {
                    &&& n is TooMany
                    &&& final(p).order@ == old(p).order@
                } else {
                    &&& n matches Next::Visit(m, id) && m@ == strs(old(p).queue@)[j] && id == old(p).order@.len()
                    &&& strs(final(p).order@) == strs(old(p).order@).push(strs(old(p).queue@)[j])
                }
            },
        },
        n is Done ==> forall|k: int|
            0 <= k < old(p).queue@.len() ==> strs(old(p).order@).contains(#[trigger] strs(old(p).queue@)[k]),
        n matches Next::Visit(m, _) ==> !strs(old(p).order@).contains(m@),
{
    let ghost oq = strs(p.queue@);
    let ghost o = strs(p.order@);
    proof {
        lemma_last_unvisited(oq, o);
        assert(oq.take(oq.len() as int) =~= oq);
    }
    loop
        invariant
            plan_wf(p),
            p.order@ == old(p).order@,
            oq == strs(old(p).queue@),
            o == strs(old(p).order@),
            p.queue@.len() <= oq.len(),
            strs(p.queue@) == oq.take(p.queue@.len() as int),
            last_unvisited(strs(p.queue@), o) == last_unvisited(oq, o),
        ensures
            plan_wf(p),
            p.order@ == old(p).order@,
            p.queue@.len() == 0,
            last_unvisited(oq, o) is None,
        decreases p.queue@.len(),
    {
        let ghost qb = p.queue@;
        match p.queue.pop() {
            None => {
                assert(strs(qb).len() == 0);
                break;
            },
            Some(m) => {
                proof {
                    assert(p.queue@ =~= qb.drop_last());
                    assert(strs(p.queue@) =~= strs(qb).drop_last());
                    assert(strs(qb).last() == m@);
                    assert(strs(p.queue@) =~= oq.take(p.queue@.len() as int));
                }
                if !string_in(p.order.as_slice(), &m) {
                    if p.order.len() >= MAX_MODULES {
                        return Next::TooMany;
                    }
                    let id = p.order.len();
                    let ghost before = strs(p.order@);
                    p.order.push(m.clone());
                    proof {
                        assert(strs(p.order@) =~= before.push(m@));
                        assert(strs(p.order@).no_duplicates()) by {
                            assert forall|a: int, b: int|
                                0 <= a < strs(p.order@).len() && 0 <= b < strs(p.order@).len() && a != b implies strs(p.order@)[a]
                                != strs(p.order@)[b] by {
                                if a < before.len() && b < before.len() {
                                } else if a == before.len() {
                                    assert(strs(p.order@)[b] == before[b]);
                                } else {
                                    assert(strs(p.order@)[a] == before[a]);
                                }
                            }
                        }
                    }
                    return Next::Visit(m, id);
                }
            },
        }
    }
    Next::Done
}

/// Queue the modules a visited module imports that are not visited yet, in order.
pub fn add_edges(p: &mut BundlePlan, targets: &[String])
    requires
        plan_wf(old(p)),
    ensures
        plan_wf(final(p)),
        final(p).order@ == old(p).order@,
        strs(old(p).queue@).is_prefix_of(strs(final(p).queue@)),
        forall|k: int|
            old(p).queue@.len() <= k < final(p).queue@.len() ==> strs(targets@).contains(
                #[trigger] strs(final(p).queue@)[k],
            ) && !strs(final(p).order@).contains(strs(final(p).queue@)[k]),
        forall|t: Seq<char>|
            strs(targets@).contains(t) && !strs(old(p).order@).contains(t) ==> strs(final(p).queue@).contains(t),
{
    let mut i: usize = 0;
    let ghost oq = strs(p.queue@);
    while i < targets.len()
        invariant
            i <= targets@.len(),
            plan_wf(p),
            p.order@ == old(p).order@,
            oq == strs(old(p).queue@),
            oq.is_prefix_of(strs(p.queue@)),
            forall|k: int|
                oq.len() <= k < p.queue@.len() ==> strs(targets@).contains(#[trigger] strs(p.queue@)[k])
                    && !strs(p.order@).contains(strs(p.queue@)[k]),
            forall|j: int|
                0 <= j < i && !strs(p.order@).contains(#[trigger] strs(targets@)[j]) ==> strs(p.queue@).contains(
                    strs(targets@)[j],
                ),
        decreases targets@.len() - i,
    {
        if !string_in(p.order.as_slice(), &targets[i]) {
            let ghost before = strs(p.queue@);
            p.queue.push(targets[i].clone());
            proof {
                assert(strs(p.queue@) =~= before.push(targets@[i as int]@));
                assert(strs(targets@)[i as int] == targets@[i as int]@);
                assert(oq.is_prefix_of(strs(p.queue@))) by {
                    assert forall|k: int| 0 <= k < oq.len() implies oq[k] == strs(p.queue@)[k] by {
                        assert(strs(p.queue@)[k] == before[k]);
                    }
                }
                assert forall|k: int| oq.len() <= k < p.queue@.len() implies strs(targets@).contains(
                    #[trigger] strs(p.queue@)[k],
                ) && !strs(p.order@).contains(strs(p.queue@)[k]) by {
                    if k < before.len() {
                        assert(strs(p.queue@)[k] == before[k]);
                    }
                }
                assert forall|j: int|
                    0 <= j < i + 1 && !strs(p.order@).contains(#[trigger] strs(targets@)[j]) implies strs(
                    p.queue@,
                ).contains(strs(targets@)[j]) by {
                    if j < i {
                        let w = choose|w: int| 0 <= w < before.len() && before[w] == strs(targets@)[j];
                        assert(strs(p.queue@)[w] == before[w]);
                    } else {
                        assert(strs(p.queue@)[before.len() as int] == strs(targets@)[j]);
                    }
                }
            }
        }
        i += 1;
    }
    proof {
        assert forall|t: Seq<char>|
            strs(targets@).contains(t) && !strs(old(p).order@).contains(t) implies strs(p.queue@).contains(t) by {
            let j = choose|j: int| 0 <= j < targets@.len() && strs(targets@)[j] == t;
        }
    }
}

/// One bundled module, wrapped to run once on its first `require`.
pub open spec fn wrap_module_spec(id: nat, text: Seq<char>) -> Seq<char> {
    "var require_m"@ + dec_spec(id) + " = __commonJS((exports, module) => {\n"@ + text + "\n});\n"@
}

pub fn wrap_module(id: u64, text: &str) -> (r: String)
    ensures
        r@ == wrap_module_spec(id as nat, text@),
{
    let mut v = chars_of("var require_m");
    extend_chars(&mut v, u64_dec(id).as_slice());
    extend_chars(&mut v, chars_of(" = __commonJS((exports, module) => {\n").as_slice());
    extend_chars(&mut v, chars_of(text).as_slice());
    extend_chars(&mut v, chars_of("\n});\n").as_slice());
    string_of(v.as_slice())
}

/// The bundle's last line: it exports the entry module.
pub open spec fn bundle_tail_spec(entry_id: nat) -> Seq<char> {
    "module.exports = require_m"@ + dec_spec(entry_id) + "();\n"@
}

pub fn bundle_tail(entry_id: u64) -> (r: String)
    ensures
        r@ == bundle_tail_spec(entry_id as nat),
{
    let mut v = chars_of("module.exports = require_m");
    extend_chars(&mut v, u64_dec(entry_id).as_slice());
    extend_chars(&mut v, chars_of("();\n").as_slice());
    string_of(v.as_slice())
}

} // verus!

verus! {

/// The extensions tried, in order, when a package's own relative import is resolved.
pub open spec fn bundle_extensions_spec() -> Seq<Seq<char>> {
    seq![".js"@, ".mjs"@, ".cjs"@, ".jsx"@, ".ts"@, ".tsx"@, ".json"@, ".node"@]
}

pub fn bundle_extensions() -> (r: Vec<String>)
    ensures
        strs(r@) == bundle_extensions_spec(),
{
    let l = [".js", ".mjs", ".cjs", ".jsx", ".ts", ".tsx", ".json", ".node"];
    assert(l@.map_values(|x: &str| x@) =~= bundle_extensions_spec());
    crate::text::owned_strings(&l)
}

/// How code inside the bundle reaches bundled module `id`: through the `require_m<id>()`
/// that `wrap_module` defines.
pub fn bundled_ref(id: u64) -> (r: crate::esm_cjs::SourceRef)
    ensures
        r matches crate::esm_cjs::SourceRef::BundledCjs { id: name } && name@ == "m"@ + dec_spec(id as nat),
{
    let mut v = chars_of("m");
    extend_chars(&mut v, u64_dec(id).as_slice());
    crate::esm_cjs::SourceRef::BundledCjs { id: string_of(v.as_slice()) }
}

} // verus!

verus! {

/// The esbuild flags every setup-file bundle gets: an ES module bundle for the browser
/// platform with the automatic JSX runtime, `vitest` left external, stylesheets empty,
/// SVGs as text and images as data URLs, no log, and `process.env.NODE_ENV` read at run
/// time.
pub open spec fn esbuild_fixed_args() -> Seq<Seq<char>> {
    seq![
        "--bundle"@, "--format=esm"@, "--platform=browser"@, "--jsx=automatic"@,
        "--external:vitest"@, "--loader:.css=empty"@, "--loader:.scss=empty"@,
        "--loader:.sass=empty"@, "--loader:.less=empty"@, "--loader:.svg=text"@,
        "--loader:.png=dataurl"@, "--loader:.jpg=dataurl"@, "--loader:.jpeg=dataurl"@,
        "--loader:.gif=dataurl"@, "--loader:.webp=dataurl"@, "--log-level=silent"@,
        "--define:process.env.NODE_ENV=globalThis.process.env.NODE_ENV"@,
    ]
}

/// The arguments esbuild is run with to bundle `file` into `outfile`: the file, the fixed
/// flags, one `--external:` per external specifier in order, `--packages=external` when
/// every package is to stay external (the module runner), the tsconfig found for the file,
/// and the output file.
pub open spec fn esbuild_args_spec(
    file: Seq<char>,
    externals: Seq<Seq<char>>,
    packages_external: bool,
    tsconfig: Option<Seq<char>>,
    outfile: Seq<char>,
) -> Seq<Seq<char>> {
    seq![file] + esbuild_fixed_args() + externals.map_values(|e: Seq<char>| "--external:"@ + e) + (
    if packages_external {
        seq!["--packages=external"@]
    } else {
        Seq::empty()
    }) + (match tsconfig {
        Some(t) => seq!["--tsconfig="@ + t],
        None => Seq::empty(),
    }) + seq!["--outfile="@ + outfile]
}

fn flag_with(flag: &str, value: &str) -> (r: String)
    ensures
        r@ == flag@ + value@,
{
    let mut v = chars_of(flag);
    extend_chars(&mut v, chars_of(value).as_slice());
    string_of(v.as_slice())
}

pub fn esbuild_args(
    file: &str,
    externals: &[String],
    packages_external: bool,
    tsconfig: Option<&str>,
    outfile: &str,
) -> (r: Vec<String>)
    ensures
        strs(r@) == esbuild_args_spec(
            file@,
            strs(externals@),
            packages_external,
            match tsconfig {
                Some(t) => Some(t@),
                None => None,
            },
            outfile@,
        ),
{
    let fixed = [
        "--bundle", "--format=esm", "--platform=browser", "--jsx=automatic",
        "--external:vitest", "--loader:.css=empty", "--loader:.scss=empty",
        "--loader:.sass=empty", "--loader:.less=empty", "--loader:.svg=text",
        "--loader:.png=dataurl", "--loader:.jpg=dataurl", "--loader:.jpeg=dataurl",
        "--loader:.gif=dataurl", "--loader:.webp=dataurl", "--log-level=silent",
        "--define:process.env.NODE_ENV=globalThis.process.env.NODE_ENV",
    ];
    let ghost fv = fixed@.map_values(|x: &str| x@);
    assert(fv =~= esbuild_fixed_args());
    let mut r: Vec<String> = Vec::new();
    r.push(file.to_owned());
    assert(strs(r@) =~= seq![file@]);
    let mut i: usize = 0;
    while i < fixed.len()
        invariant
            i <= fixed@.len(),
            fv == fixed@.map_values(|x: &str| x@),
            strs(r@) == seq![file@] + fv.take(i as int),
        decreases fixed@.len() - i,
    {
        let ghost b = strs(r@);
        r.push(fixed[i].to_owned());
        assert(strs(r@) =~= b.push(fv[i as int]));
        assert(fv.take(i + 1) =~= fv.take(i as int).push(fv[i as int]));
        i += 1;
    }
    assert(fv.take(fixed@.len() as int) =~= fv);
    let ghost base = strs(r@);
    let ghost ev = strs(externals@).map_values(|e: Seq<char>| "--external:"@ + e);
    let mut j: usize = 0;
    while j < externals.len()
        invariant
            j <= externals@.len(),
            ev == strs(externals@).map_values(|e: Seq<char>| "--external:"@ + e),
            strs(r@) == base + ev.take(j as int),
        decreases externals@.len() - j,
    {
        let ghost b = strs(r@);
        r.push(flag_with("--external:", externals[j].as_str()));
        assert(strs(r@) =~= b.push(ev[j as int]));
        assert(ev.take(j + 1) =~= ev.take(j as int).push(ev[j as int]));
        j += 1;
    }
    assert(ev.take(externals@.len() as int) =~= ev);
    let ghost mid = strs(r@);
    if packages_external {
        r.push("--packages=external".to_owned());
        assert(strs(r@) =~= mid + seq!["--packages=external"@]);
    } else {
        assert(strs(r@) =~= mid + Seq::<Seq<char>>::empty());
    }
    let ghost mid2 = strs(r@);
    match tsconfig {
        Some(t) => {
            r.push(flag_with("--tsconfig=", t));
            assert(strs(r@) =~= mid2 + seq!["--tsconfig="@ + t@]);
        },
        None => {
            assert(strs(r@) =~= mid2 + Seq::<Seq<char>>::empty());
        },
    }
    let ghost last = strs(r@);
    r.push(flag_with("--outfile=", outfile));
    assert(strs(r@) =~= last + seq!["--outfile="@ + outfile@]);
    r
}

} // verus!
