//! Per-thread state of the native DOM: element style objects, the document, and the log
//! of DOM members that scripts read but the DOM does not implement.

use vstd::prelude::*;

use crate::launcher::{starts_with, starts_with_exec};
use crate::text::{chars_eq, chars_of};

verus! {

/// One thread's DOM state: style objects by node handle (`H`, `S`), the document (`D`), and
/// how often each missing member was read.
pub struct DomThread<H, S, D> {
    pub style: Vec<(H, S)>,
    pub dom: Option<D>,
    pub missing: Vec<(String, u64)>,
}

impl<H, S, D> DomThread<H, S, D> {
    pub fn new() -> (t: Self)
        ensures
            t.style@.len() == 0,
            t.dom is None,
            t.missing@.len() == 0,
    {
        DomThread { style: Vec::new(), dom: None, missing: Vec::new() }
    }
}

/// Reset the thread's DOM between files: styles and the document go. When logging, the
/// missing-member log is handed back (and emptied) to be reported.
pub fn reset<H, S, D>(t: &mut DomThread<H, S, D>, log: bool) -> (r: Vec<(String, u64)>)
    ensures
        final(t).style@.len() == 0,
        final(t).dom is None,
        log ==> r@ == old(t).missing@ && final(t).missing@.len() == 0,
        !log ==> r@.len() == 0 && final(t).missing@ == old(t).missing@,
{
    t.style.clear();
    let mut out: Vec<(String, u64)> = Vec::new();
    if log {
        std::mem::swap(&mut out, &mut t.missing);
    }
    t.dom = None;
    out
}

/// The members the native DOM implements, and the JavaScript internals engines and
/// libraries probe: reads of these are not intercepted.
pub open spec fn known_members() -> Seq<Seq<char>> {
    seq![
        "appendChild"@, "removeChild"@, "insertBefore"@, "setAttribute"@, "getAttribute"@,
        "hasAttribute"@, "removeAttribute"@, "querySelector"@, "querySelectorAll"@, "tagName"@,
        "parentNode"@, "firstChild"@, "nextSibling"@, "textContent"@, "id"@, "className"@,
        "style"@, "oninput"@, "onchange"@, "onclick"@, "nodeType"@, "nodeName"@, "childNodes"@,
        "ownerDocument"@, "addEventListener"@, "removeEventListener"@, "dispatchEvent"@,
        "matches"@, "contains"@, "innerHTML"@, "outerHTML"@, "children"@, "parentElement"@,
        "firstElementChild"@, "namespaceURI"@, "value"@, "append"@, "prepend"@, "remove"@,
        "focus"@, "blur"@, "click"@, "scrollIntoView"@, "getBoundingClientRect"@,
        "createElementNS"@, "createDocumentFragment"@, "createComment"@, "createElement"@,
        "createTextNode"@, "getElementById"@, "body"@, "documentElement"@, "then"@, "catch"@,
        "finally"@, "constructor"@, "prototype"@, "toString"@, "valueOf"@, "toJSON"@,
        "length"@, "name"@, "call"@, "apply"@, "bind"@, "hasOwnProperty"@, "nodeName"@,
    ]
}

/// Whether a property read falls through to the real object: symbols and known members.
pub open spec fn falls_through(key: Seq<char>) -> bool {
    starts_with(key, "Symbol("@) || known_members().contains(key)
}

pub fn is_known_member(key: &str) -> (b: bool)
    ensures
        b == falls_through(key@),
{
    let k = chars_of(key);
    proof {
        reveal_strlit("Symbol(");
    }
    if starts_with_exec(k.as_slice(), chars_of("Symbol(").as_slice()) {
        return true;
    }
    let list = [
        "appendChild", "removeChild", "insertBefore", "setAttribute", "getAttribute",
        "hasAttribute", "removeAttribute", "querySelector", "querySelectorAll", "tagName",
        "parentNode", "firstChild", "nextSibling", "textContent", "id", "className", "style",
        "oninput", "onchange", "onclick", "nodeType", "nodeName", "childNodes", "ownerDocument",
        "addEventListener", "removeEventListener", "dispatchEvent", "matches", "contains",
        "innerHTML", "outerHTML", "children", "parentElement", "firstElementChild",
        "namespaceURI", "value", "append", "prepend", "remove", "focus", "blur", "click",
        "scrollIntoView", "getBoundingClientRect", "createElementNS", "createDocumentFragment",
        "createComment", "createElement", "createTextNode", "getElementById", "body",
        "documentElement", "then", "catch", "finally", "constructor", "prototype", "toString",
        "valueOf", "toJSON", "length", "name", "call", "apply", "bind", "hasOwnProperty",
        "nodeName",
    ];
    let ghost lv = list@.map_values(|x: &str| x@);
    assert(lv =~= known_members());
    let mut i: usize = 0;
    while i < list.len()
        invariant
            i <= list@.len(),
            lv == list@.map_values(|x: &str| x@),
            lv == known_members(),
            k@ == key@,
            forall|j: int| 0 <= j < i ==> lv[j] != k@,
        decreases list@.len() - i,
    {
        if chars_eq(k.as_slice(), chars_of(list[i]).as_slice()) {
            assert(lv[i as int] == k@);
            return true;
        }
        i += 1;
    }
    false
}

/// The count logged for `key` (0 when absent; its first entry).
pub open spec fn missing_count(m: Seq<(String, u64)>, key: Seq<char>) -> int {
    let i = crate::assoc::first_index(crate::covdata::file_keys(m), key);
    if i >= 0 {
        m[i].1 as int
    } else {
        0
    }
}

/// A read of property `key` on a DOM object: symbols and known members fall through
/// (`false`); any other member is intercepted (`true`, it reads as undefined) and, when
/// logging, counted (wrapping).
pub fn intercept_read<H, S, D>(t: &mut DomThread<H, S, D>, key: &str, log: bool) -> (hit: bool)
    ensures
        hit == !falls_through(key@),
        final(t).style@ == old(t).style@,
        final(t).dom == old(t).dom,
        hit && log ==> missing_count(final(t).missing@, key@) == (if missing_count(
            old(t).missing@,
            key@,
        ) == u64::MAX {
            0
        } else {
            missing_count(old(t).missing@, key@) + 1
        }),
        hit && log ==> forall|k: Seq<char>|
            k != key@ ==> #[trigger] missing_count(final(t).missing@, k) == missing_count(
                old(t).missing@,
                k,
            ),
        !(hit && log) ==> final(t).missing@ == old(t).missing@,
{
    if is_known_member(key) {
        return false;
    }
    if log {
        let k = key.to_owned();
        let ghost o = t.missing@;
        match crate::covdata::find_file(&t.missing, &k) {
            Some(i) => {
                proof {
                    crate::assoc::lemma_first_index(crate::covdata::file_keys(o), key@);
                }
                let (name, c) = t.missing.remove(i);
                t.missing.insert(i, (name, c.wrapping_add(1)));
                proof {
                    assert(crate::covdata::file_keys(t.missing@) =~= crate::covdata::file_keys(o));
                    assert forall|kk: Seq<char>| kk != key@ implies #[trigger] missing_count(
                        t.missing@,
                        kk,
                    ) == missing_count(o, kk) by {
                        crate::assoc::lemma_first_index(crate::covdata::file_keys(o), kk);
                        let j = crate::assoc::first_index(crate::covdata::file_keys(o), kk);
                        if j >= 0 {
                            assert(crate::covdata::file_keys(o)[j] == kk);
                            assert(j != i);
                        }
                    }
                }
            },
            None => {
                t.missing.push((k, 1));
                proof {
                    assert(crate::covdata::file_keys(t.missing@) =~= crate::covdata::file_keys(
                        o,
                    ).push(key@));
                    crate::assoc::lemma_first_index_push(crate::covdata::file_keys(o), key@, key@);
                    assert forall|kk: Seq<char>| kk != key@ implies #[trigger] missing_count(
                        t.missing@,
                        kk,
                    ) == missing_count(o, kk) by {
                        crate::assoc::lemma_first_index_push(crate::covdata::file_keys(o), key@, kk);
                        crate::assoc::lemma_first_index(crate::covdata::file_keys(o), kk);
                    }
                }
            },
        }
    }
    true
}

} // verus!

verus! {

/// A DOM switch read from the environment (`TURBO_RUST_DOM`, `TURBO_RUST_DOM_LOG`): off
/// when unset, on when set to anything but nothing or `0`.
pub open spec fn dom_switch_spec(setting: Option<Seq<char>>) -> bool {
    match setting {
        Some(v) => v.len() > 0 && v != "0"@,
        None => false,
    }
}

fn dom_switch(setting: Option<&str>) -> (b: bool)
    ensures
        b == dom_switch_spec(crate::esm_cjs::opt_str(setting)),
{
    match setting {
        Some(v) => {
            let c = crate::text::chars_of(v);
            c.len() > 0 && !crate::text::chars_eq(c.as_slice(), crate::text::chars_of("0").as_slice())
        },
        None => false,
    }
}

/// Whether the native DOM is installed (`TURBO_RUST_DOM`).
pub fn enabled(setting: Option<&str>) -> (b: bool)
    ensures
        b == dom_switch_spec(crate::esm_cjs::opt_str(setting)),
{
    dom_switch(setting)
}

/// Whether reads of members the native DOM lacks are recorded (`TURBO_RUST_DOM_LOG`).
pub fn log_enabled(setting: Option<&str>) -> (b: bool)
    ensures
        b == dom_switch_spec(crate::esm_cjs::opt_str(setting)),
{
    dom_switch(setting)
}

} // verus!
