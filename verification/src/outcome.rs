//! What a run makes of each test file's result: the retry policy for results that look
//! like a transient DOM start-up race, the per-file result line, the totals, the JSON
//! summary and the exit code.

use vstd::prelude::*;
use crate::report::{json_escape, json_escape_spec};
use crate::text::{chars_of, contains_any, contains_any_spec, contains_chars, contains_seq, dec_spec, extend_chars, string_of, u64_dec};

verus! {

/// The result of running one test file.
pub struct TestReport {
    pub passed: u32,
    pub failed: u32,
    /// One message per failed test.
    pub failures: Vec<String>,
}

impl TestReport {
    /// Passed: nothing failed and at least one test ran.
    pub fn ok(&self) -> (b: bool)
        ensures
            b == (self.failed == 0 && self.passed > 0),
    {
        self.failed == 0 && self.passed > 0
    }
}

/// A failure message that names a missing DOM global.
pub open spec fn dom_race_message(f: Seq<char>) -> bool {
    contains_seq(f, "is not defined"@) && contains_any_spec(f, seq!["document"@, "window"@, "DOM"@])
}

/// A result that may be the DOM start-up race: a load error, a file where every test
/// failed, or a failure naming a missing DOM global.
pub open spec fn transient_spec(r: Result<TestReport, String>) -> bool {
    match r {
        Ok(rep) => (rep.passed == 0 && rep.failed > 0) || exists|j: int|
            0 <= j < rep.failures@.len() && dom_race_message(#[trigger] rep.failures@[j]@),
        Err(_) => true,
    }
}

pub fn looks_transient(r: &Result<TestReport, String>) -> (b: bool)
    ensures
        b == transient_spec(*r),
{
    match r {
        Ok(rep) => {
            if rep.passed == 0 && rep.failed > 0 {
                return true;
            }
            let mut j: usize = 0;
            while j < rep.failures.len()
                invariant
                    j <= rep.failures@.len(),
                    *r is Ok && r->Ok_0 == *rep,
                    !(rep.passed == 0 && rep.failed > 0),
                    forall|k: int| 0 <= k < j ==> !dom_race_message(#[trigger] rep.failures@[k]@),
                decreases rep.failures.len() - j,
            {
                let f = chars_of(rep.failures[j].as_str());
                let globals = ["document", "window", "DOM"];
                assert(globals@.map_values(|x: &str| x@) =~= seq!["document"@, "window"@, "DOM"@]);
                if contains_chars(f.as_slice(), chars_of("is not defined").as_slice())
                    && contains_any(f.as_slice(), &globals) {
                    assert(dom_race_message(rep.failures@[j as int]@));
                    return true;
                }
                j += 1;
            }
            false
        },
        Err(_) => true,
    }
}

/// How good a result is: passes count a thousand times more than failures; a load error
/// is the worst.
pub open spec fn score_spec(r: Result<TestReport, String>) -> i64 {
    match r {
        Ok(rep) => (rep.passed * 1000 - rep.failed) as i64,
        Err(_) => i64::MIN,
    }
}

pub fn score(r: &Result<TestReport, String>) -> (s: i64)
    ensures
        s == score_spec(*r),
{
    match r {
        Ok(rep) => (rep.passed as i64) * 1000 - (rep.failed as i64),
        Err(_) => i64::MIN,
    }
}

/// A result with something wrong: a failure, no test passed, or a load error.
pub open spec fn has_fail_spec(r: Result<TestReport, String>) -> bool {
    match r {
        Ok(rep) => rep.failed > 0 || rep.passed == 0,
        Err(_) => true,
    }
}

pub fn has_fail(r: &Result<TestReport, String>) -> (b: bool)
    ensures
        b == has_fail_spec(*r),
{
    match r {
        Ok(rep) => rep.failed > 0 || rep.passed == 0,
        Err(_) => true,
    }
}

/// Which way a file is run: as configured (possibly in a reused isolate), or in a fresh one.
#[derive(PartialEq, Eq, Structural, Clone, Copy)]
pub enum RunKind {
    Normal,
    Fresh,
}

/// The attempts made so far at one file with one kind of run.
pub struct Attempts {
    pub kind: RunKind,
    /// The best result so far.
    pub best: Result<TestReport, String>,
    /// Runs made after the first.
    pub retries: u32,
}

/// What to do next for a file.
#[derive(PartialEq, Eq, Structural, Clone, Copy)]
pub enum NextRun {
    /// Run it again the same way.
    Again,
    /// Run it in a fresh isolate; that result replaces everything before.
    Fresh,
    /// Report the best result.
    Done,
}

/// Up to two reruns while the result looks transient; then, under isolate reuse, a result
/// with something wrong is settled by a fresh run.
pub open spec fn next_run_spec(a: Attempts, reuse: bool) -> NextRun {
    if transient_spec(a.best) && a.retries < 2 {
        NextRun::Again
    } else if a.kind == RunKind::Normal && reuse && has_fail_spec(a.best) {
        NextRun::Fresh
    } else {
        NextRun::Done
    }
}

/// The first result of a kind of run.
pub fn first_attempt(kind: RunKind, r: Result<TestReport, String>) -> (a: Attempts)
    ensures
        a.kind == kind,
        a.best == r,
        a.retries == 0,
{
    Attempts { kind, best: r, retries: 0 }
}

pub fn next_run(a: &Attempts, reuse: bool) -> (n: NextRun)
    ensures
        n == next_run_spec(*a, reuse),
{
    if looks_transient(&a.best) && a.retries < 2 {
        NextRun::Again
    } else if a.kind == RunKind::Normal && reuse && has_fail(&a.best) {
        NextRun::Fresh
    } else {
        NextRun::Done
    }
}

/// The better of the result kept so far and a rerun's: the rerun only when it scores
/// strictly higher.
pub open spec fn keep_better(kept: Result<TestReport, String>, rerun: Result<TestReport, String>) -> Result<TestReport, String> {
    if score_spec(rerun) > score_spec(kept) {
        rerun
    } else {
        kept
    }
}

/// A rerun's result recorded.
pub fn record_retry(a: Attempts, r: Result<TestReport, String>) -> (b: Attempts)
    requires
        a.retries < 2,
    ensures
        b.kind == a.kind,
        b.retries == a.retries + 1,
        b.best == keep_better(a.best, r),
{
    let better = score(&r) > score(&a.best);
    let Attempts { kind, best, retries } = a;
    if better {
        Attempts { kind, best: r, retries: retries + 1 }
    } else {
        Attempts { kind, best, retries: retries + 1 }
    }
}

/// A retry never leaves a file with a worse-scoring result than it had, nor one worse than
/// the rerun's.
pub proof fn law_retry_keeps_best(kept: Result<TestReport, String>, rerun: Result<TestReport, String>)
    ensures
        score_spec(keep_better(kept, rerun)) >= score_spec(kept),
        score_spec(keep_better(kept, rerun)) >= score_spec(rerun),
{
}

/// Under isolate reuse, a file whose reused-isolate result still has something wrong once
/// the transient reruns are over is run again in a fresh isolate, and that fresh result is
/// what is kept.
pub proof fn law_reuse_failure_goes_fresh(a: Attempts, r: Result<TestReport, String>)
    requires
        a.kind == RunKind::Normal,
        has_fail_spec(a.best),
        !(transient_spec(a.best) && a.retries < 2),
    ensures
        next_run_spec(a, true) == NextRun::Fresh,
        ({
            let f = Attempts { kind: RunKind::Fresh, best: r, retries: 0 };
            f.best == r && next_run_spec(f, true) != NextRun::Fresh
        }),
{
}

/// A file is rerun at most twice per kind of run, and a fresh run never leads to another
/// fresh run: at most six runs in all.
pub proof fn law_runs_bounded(a: Attempts, reuse: bool)
    ensures
        next_run_spec(a, reuse) == NextRun::Again ==> a.retries < 2,
        a.kind == RunKind::Fresh ==> next_run_spec(a, reuse) != NextRun::Fresh,
        !reuse ==> next_run_spec(a, reuse) != NextRun::Fresh,
{
}

} // verus!

verus! {

/// The failure messages, each on a line of its own under the file's line.
pub open spec fn failure_lines(fs: Seq<Seq<char>>) -> Seq<char>
    decreases fs.len(),
{
    if fs.len() == 0 {
        Seq::empty()
    } else {
        failure_lines(fs.drop_last()) + "\n        ✗ "@ + fs.last()
    }
}

/// The line printed for one file.
pub open spec fn result_line_spec(file: Seq<char>, r: Result<TestReport, String>) -> Seq<char> {
    match r {
        Ok(rep) => (if rep.failed == 0 && rep.passed > 0 { "PASS"@ } else { "FAIL"@ }) + "  "@ + file
            + "  ("@ + dec_spec(rep.passed as nat) + " passed, "@ + dec_spec(rep.failed as nat)
            + " failed)"@ + failure_lines(crate::text::strs(rep.failures@)),
        Err(e) => "ERROR "@ + file + "  ("@ + e@ + ")"@,
    }
}

fn push_str(v: &mut Vec<char>, s: &str)
    ensures
        final(v)@ == old(v)@ + s@,
{
    extend_chars(v, chars_of(s).as_slice());
}

pub fn result_line(file: &str, r: &Result<TestReport, String>) -> (s: String)
    ensures
        s@ == result_line_spec(file@, *r),
{
    let mut v: Vec<char> = Vec::new();
    match r {
        Ok(rep) => {
            if rep.ok() {
                push_str(&mut v, "PASS");
            } else {
                push_str(&mut v, "FAIL");
            }
            push_str(&mut v, "  ");
            push_str(&mut v, file);
            push_str(&mut v, "  (");
            extend_chars(&mut v, u64_dec(rep.passed as u64).as_slice());
            push_str(&mut v, " passed, ");
            extend_chars(&mut v, u64_dec(rep.failed as u64).as_slice());
            push_str(&mut v, " failed)");
            let ghost head = v@;
            let ghost fs = crate::text::strs(rep.failures@);
            let mut j: usize = 0;
            assert(fs.take(0) =~= Seq::<Seq<char>>::empty());
            assert(head + failure_lines(fs.take(0)) =~= head);
            while j < rep.failures.len()
                invariant
                    j <= rep.failures@.len(),
                    fs == crate::text::strs(rep.failures@),
                    v@ == head + failure_lines(fs.take(j as int)),
                decreases rep.failures.len() - j,
            {
                assert(fs.take(j + 1).drop_last() =~= fs.take(j as int));
                push_str(&mut v, "\n        ✗ ");
                push_str(&mut v, rep.failures[j].as_str());
                assert(v@ =~= head + failure_lines(fs.take(j + 1)));
                j += 1;
            }
            assert(fs.take(rep.failures@.len() as int) =~= fs);
        },
        Err(e) => {
            push_str(&mut v, "ERROR ");
            push_str(&mut v, file);
            push_str(&mut v, "  (");
            push_str(&mut v, e.as_str());
            push_str(&mut v, ")");
        },
    }
    string_of(v.as_slice())
}

} // verus!

verus! {

/// What the run keeps of one file for its totals and summary.
pub struct FileSummary {
    pub name: String,
    pub passed: u32,
    pub failed: u32,
    pub load_error: bool,
}

pub open spec fn summary_of(name: Seq<char>, r: Result<TestReport, String>, s: FileSummary) -> bool {
    &&& s.name@ == name
    &&& match r {
        Ok(rep) => s.passed == rep.passed && s.failed == rep.failed && !s.load_error,
        Err(_) => s.passed == 0 && s.failed == 0 && s.load_error,
    }
}

pub fn summarize(name: String, r: &Result<TestReport, String>) -> (s: FileSummary)
    ensures
        summary_of(name@, *r, s),
{
    match r {
        Ok(rep) => FileSummary { name, passed: rep.passed, failed: rep.failed, load_error: false },
        Err(_) => FileSummary { name, passed: 0, failed: 0, load_error: true },
    }
}

pub open spec fn sum_passed(rs: Seq<FileSummary>) -> nat
    decreases rs.len(),
{
    if rs.len() == 0 {
        0
    } else {
        sum_passed(rs.drop_last()) + rs.last().passed as nat
    }
}

pub open spec fn sum_failed(rs: Seq<FileSummary>) -> nat
    decreases rs.len(),
{
    if rs.len() == 0 {
        0
    } else {
        sum_failed(rs.drop_last()) + rs.last().failed as nat
    }
}

pub open spec fn count_errors(rs: Seq<FileSummary>) -> nat
    decreases rs.len(),
{
    if rs.len() == 0 {
        0
    } else {
        count_errors(rs.drop_last()) + if rs.last().load_error { 1nat } else { 0nat }
    }
}

proof fn lemma_errors_bounded(rs: Seq<FileSummary>)
    ensures
        count_errors(rs) <= rs.len(),
    decreases rs.len(),
{
    if rs.len() > 0 {
        lemma_errors_bounded(rs.drop_last());
    }
}

proof fn lemma_sums_prefix(rs: Seq<FileSummary>, k: int)
    requires
        0 <= k <= rs.len(),
    ensures
        sum_passed(rs.take(k)) <= sum_passed(rs),
        sum_failed(rs.take(k)) <= sum_failed(rs),
    decreases rs.len(),
{
    if k < rs.len() {
        lemma_sums_prefix(rs.drop_last(), k);
        assert(rs.drop_last().take(k) =~= rs.take(k));
    } else {
        assert(rs.take(k) =~= rs);
    }
}

/// Tests passed, tests failed and files that failed to load, over the whole run.
pub fn run_totals(rs: &[FileSummary]) -> (t: (u32, u32, u32))
    requires
        sum_passed(rs@) <= u32::MAX,
        sum_failed(rs@) <= u32::MAX,
        rs@.len() <= u32::MAX,
    ensures
        t.0 == sum_passed(rs@),
        t.1 == sum_failed(rs@),
        t.2 == count_errors(rs@),
{
    let mut tp: u32 = 0;
    let mut tf: u32 = 0;
    let mut errs: u32 = 0;
    let mut i: usize = 0;
    while i < rs.len()
        invariant
            i <= rs@.len() <= u32::MAX,
            sum_passed(rs@) <= u32::MAX,
            sum_failed(rs@) <= u32::MAX,
            tp == sum_passed(rs@.take(i as int)),
            tf == sum_failed(rs@.take(i as int)),
            errs == count_errors(rs@.take(i as int)),
        decreases rs.len() - i,
    {
        assert(rs@.take(i + 1).drop_last() =~= rs@.take(i as int));
        proof {
            lemma_sums_prefix(rs@, i + 1);
            lemma_errors_bounded(rs@.take(i + 1));
        }
        tp = tp + rs[i].passed;
        tf = tf + rs[i].failed;
        if rs[i].load_error {
            errs = errs + 1;
        }
        i += 1;
    }
    assert(rs@.take(rs@.len() as int) =~= rs@);
    (tp, tf, errs)
}

/// The process exit status: 0 when nothing failed, nothing failed to load and the
/// coverage gate (if any) passed; 1 otherwise.
pub fn exit_code(failed: u32, load_errors: u32, coverage_ok: bool) -> (c: i32)
    ensures
        c == (if failed == 0 && load_errors == 0 && coverage_ok { 0i32 } else { 1i32 }),
{
    if failed == 0 && load_errors == 0 && coverage_ok { 0 } else { 1 }
}

} // verus!

verus! {

pub open spec fn status_text(r: FileSummary) -> Seq<char> {
    if r.load_error {
        "error"@
    } else if r.failed == 0 {
        "passed"@
    } else {
        "failed"@
    }
}

/// One entry of `testResults`.
pub open spec fn result_item(r: FileSummary) -> Seq<char> {
    "{\"name\":\""@ + json_escape_spec(r.name@) + "\",\"status\":\""@ + status_text(r)
        + "\",\"numPassingTests\":"@ + dec_spec(r.passed as nat) + ",\"numFailingTests\":"@
        + dec_spec(r.failed as nat) + "}"@
}

/// The entries joined by commas.
pub open spec fn result_items(rs: Seq<FileSummary>) -> Seq<char>
    decreases rs.len(),
{
    if rs.len() == 0 {
        Seq::empty()
    } else if rs.len() == 1 {
        result_item(rs[0])
    } else {
        result_items(rs.drop_last()) + ","@ + result_item(rs.last())
    }
}

/// The JSON run summary (`--reporter json`).
pub open spec fn json_summary_spec(suites: usize, rs: Seq<FileSummary>) -> Seq<char> {
    let tp = sum_passed(rs);
    let tf = sum_failed(rs);
    "{"@ + "\"numTotalTestSuites\":"@ + dec_spec(suites as nat) + ","@ + "\"numTotalTests\":"@
        + dec_spec(tp + tf) + ","@ + "\"numPassedTests\":"@ + dec_spec(tp) + ","@
        + "\"numFailedTests\":"@ + dec_spec(tf) + ","@ + "\"success\":"@
        + (if tf == 0 && count_errors(rs) == 0 { "true"@ } else { "false"@ }) + ","@
        + "\"testResults\":["@ + result_items(rs) + "]}"@
}

proof fn lemma_errors_count(rs: Seq<FileSummary>)
    ensures
        (exists|k: int| 0 <= k < rs.len() && #[trigger] rs[k].load_error) ==> count_errors(rs) > 0,
        (exists|k: int| 0 <= k < rs.len() && #[trigger] rs[k].failed > 0) ==> sum_failed(rs) > 0,
        (forall|k: int| 0 <= k < rs.len() ==> !(#[trigger] rs[k]).load_error && rs[k].failed == 0) ==> (
        count_errors(rs) == 0 && sum_failed(rs) == 0),
    decreases rs.len(),
{
    if rs.len() > 0 {
        let p = rs.drop_last();
        lemma_errors_count(p);
        assert forall|k: int| 0 <= k < p.len() implies #[trigger] p[k] == rs[k] by {}
        if exists|k: int| 0 <= k < rs.len() && #[trigger] rs[k].load_error {
            let k = choose|k: int| 0 <= k < rs.len() && #[trigger] rs[k].load_error;
            if k < rs.len() - 1 {
                assert(p[k].load_error);
            }
        }
        if exists|k: int| 0 <= k < rs.len() && #[trigger] rs[k].failed > 0 {
            let k = choose|k: int| 0 <= k < rs.len() && #[trigger] rs[k].failed > 0;
            if k < rs.len() - 1 {
                assert(p[k].failed > 0);
            }
        }
        if forall|k: int| 0 <= k < rs.len() ==> !(#[trigger] rs[k]).load_error && rs[k].failed == 0 {
            assert forall|k: int| 0 <= k < p.len() implies !(#[trigger] p[k]).load_error && p[k].failed == 0 by {
                assert(p[k] == rs[k]);
            }
            assert(!rs[rs.len() - 1].load_error);
        }
    }
}

/// The JSON summary's `success` field: `false` as soon as one file failed to load or one
/// test failed, `true` when every file loaded and no test failed.
pub proof fn law_summary_success(suites: usize, rs: Seq<FileSummary>)
    ensures
        (exists|k: int| 0 <= k < rs.len() && (#[trigger] rs[k]).load_error) ==> contains_seq(
            json_summary_spec(suites, rs),
            "\"success\":false"@,
        ),
        (exists|k: int| 0 <= k < rs.len() && (#[trigger] rs[k]).failed > 0) ==> contains_seq(
            json_summary_spec(suites, rs),
            "\"success\":false"@,
        ),
        (forall|k: int| 0 <= k < rs.len() ==> !(#[trigger] rs[k]).load_error && rs[k].failed == 0)
            ==> contains_seq(json_summary_spec(suites, rs), "\"success\":true"@),
{
    lemma_errors_count(rs);
    let tp = sum_passed(rs);
    let tf = sum_failed(rs);
    let x = if tf == 0 && count_errors(rs) == 0 { "true"@ } else { "false"@ };
    let p0 = "{"@ + "\"numTotalTestSuites\":"@ + dec_spec(suites as nat) + ","@ + "\"numTotalTests\":"@
        + dec_spec(tp + tf) + ","@ + "\"numPassedTests\":"@ + dec_spec(tp) + ","@
        + "\"numFailedTests\":"@ + dec_spec(tf) + ","@;
    let r = ","@ + "\"testResults\":["@ + result_items(rs) + "]}"@;
    let mid = "\"success\":"@ + x;
    let j = json_summary_spec(suites, rs);
    assert(j =~= p0 + mid + r);
    assert(j.subrange(p0.len() as int, (p0.len() + mid.len()) as int) =~= mid);
    assert(crate::text::occurs_at(j, mid, p0.len() as int));
    reveal_strlit("\"success\":");
    reveal_strlit("\"success\":false");
    reveal_strlit("\"success\":true");
    reveal_strlit("true");
    reveal_strlit("false");
    assert("\"success\":false"@ =~= "\"success\":"@ + "false"@);
    assert("\"success\":true"@ =~= "\"success\":"@ + "true"@);
}

/// The JSON summary counts every test: `numPassedTests` is the sum of the files' passed
/// tests, `numFailedTests` the sum of their failed tests, and `numTotalTests` the two
/// together.
#[verifier::rlimit(60)]
pub proof fn law_summary_counts(suites: usize, rs: Seq<FileSummary>)
    ensures
        contains_seq(json_summary_spec(suites, rs), "\"numTotalTests\":"@ + dec_spec(sum_passed(rs) + sum_failed(rs)) + ","@),
        contains_seq(json_summary_spec(suites, rs), "\"numPassedTests\":"@ + dec_spec(sum_passed(rs)) + ","@),
        contains_seq(json_summary_spec(suites, rs), "\"numFailedTests\":"@ + dec_spec(sum_failed(rs)) + ","@),
        contains_seq(json_summary_spec(suites, rs), "{\"numTotalTestSuites\":"@ + dec_spec(suites as nat) + ","@),
{
    let tp = sum_passed(rs);
    let tf = sum_failed(rs);
    let j = json_summary_spec(suites, rs);
    let a0 = "{"@;
    let s1 = "\"numTotalTestSuites\":"@ + dec_spec(suites as nat) + ","@;
    let s2 = "\"numTotalTests\":"@ + dec_spec(tp + tf) + ","@;
    let s3 = "\"numPassedTests\":"@ + dec_spec(tp) + ","@;
    let s4 = "\"numFailedTests\":"@ + dec_spec(tf) + ","@;
    let x = if tf == 0 && count_errors(rs) == 0 { "true"@ } else { "false"@ };
    let rest = "\"success\":"@ + x + ","@ + "\"testResults\":["@ + result_items(rs) + "]}"@;
    assert(j =~= (a0 + s1) + s2 + (s3 + s4 + rest)) by {
        assert(j =~= a0 + s1 + s2 + s3 + s4 + rest);
    }
    lemma_infix(a0 + s1, s2, s3 + s4 + rest);
    assert(j =~= (a0 + s1 + s2) + s3 + (s4 + rest)) by {
        assert(j =~= a0 + s1 + s2 + s3 + s4 + rest);
    }
    lemma_infix(a0 + s1 + s2, s3, s4 + rest);
    assert(j =~= (a0 + s1 + s2 + s3) + s4 + rest) by {
        assert(j =~= a0 + s1 + s2 + s3 + s4 + rest);
    }
    lemma_infix(a0 + s1 + s2 + s3, s4, rest);
    assert(j =~= Seq::<char>::empty() + (a0 + s1) + (s2 + s3 + s4 + rest)) by {
        assert(j =~= a0 + s1 + s2 + s3 + s4 + rest);
    }
    lemma_infix(Seq::<char>::empty(), a0 + s1, s2 + s3 + s4 + rest);
    assert("{\"numTotalTestSuites\":"@ + dec_spec(suites as nat) + ","@ =~= a0 + s1) by {
        reveal_strlit("{");
        reveal_strlit("\"numTotalTestSuites\":");
        reveal_strlit("{\"numTotalTestSuites\":");
        assert("{\"numTotalTestSuites\":"@ =~= "{"@ + "\"numTotalTestSuites\":"@);
    }
}

proof fn lemma_infix(a: Seq<char>, b: Seq<char>, c: Seq<char>)
    ensures
        contains_seq(a + b + c, b),
{
    let h = a + b + c;
    assert(h.subrange(a.len() as int, (a.len() + b.len()) as int) =~= b);
    assert(crate::text::occurs_at(h, b, a.len() as int));
}

fn item_text(r: &FileSummary) -> (s: Vec<char>)
    ensures
        s@ == result_item(*r),
{
    let mut v: Vec<char> = Vec::new();
    push_str(&mut v, "{\"name\":\"");
    push_str(&mut v, json_escape(r.name.as_str()).as_str());
    push_str(&mut v, "\",\"status\":\"");
    if r.load_error {
        push_str(&mut v, "error");
    } else if r.failed == 0 {
        push_str(&mut v, "passed");
    } else {
        push_str(&mut v, "failed");
    }
    push_str(&mut v, "\",\"numPassingTests\":");
    extend_chars(&mut v, u64_dec(r.passed as u64).as_slice());
    push_str(&mut v, ",\"numFailingTests\":");
    extend_chars(&mut v, u64_dec(r.failed as u64).as_slice());
    push_str(&mut v, "}");
    v
}

pub fn json_summary(suites: usize, rs: &[FileSummary]) -> (s: String)
    requires
        sum_passed(rs@) + sum_failed(rs@) <= u32::MAX,
        rs@.len() <= u32::MAX,
    ensures
        s@ == json_summary_spec(suites, rs@),
{
    let (tp, tf, errs) = run_totals(rs);
    let total: u32 = tp + tf;
    let mut v: Vec<char> = Vec::new();
    push_str(&mut v, "{");
    push_str(&mut v, "\"numTotalTestSuites\":");
    extend_chars(&mut v, u64_dec(suites as u64).as_slice());
    push_str(&mut v, ",");
    push_str(&mut v, "\"numTotalTests\":");
    extend_chars(&mut v, u64_dec(total as u64).as_slice());
    push_str(&mut v, ",");
    push_str(&mut v, "\"numPassedTests\":");
    extend_chars(&mut v, u64_dec(tp as u64).as_slice());
    push_str(&mut v, ",");
    push_str(&mut v, "\"numFailedTests\":");
    extend_chars(&mut v, u64_dec(tf as u64).as_slice());
    push_str(&mut v, ",");
    push_str(&mut v, "\"success\":");
    if tf == 0 && errs == 0 {
        push_str(&mut v, "true");
    } else {
        push_str(&mut v, "false");
    }
    push_str(&mut v, ",");
    push_str(&mut v, "\"testResults\":[");
    let ghost head = v@;
    let mut i: usize = 0;
    assert(head + result_items(rs@.take(0)) =~= head);
    while i < rs.len()
        invariant
            i <= rs@.len(),
            v@ == head + result_items(rs@.take(i as int)),
        decreases rs.len() - i,
    {
        assert(rs@.take(i + 1).drop_last() =~= rs@.take(i as int));
        if i > 0 {
            push_str(&mut v, ",");
        }
        let item = item_text(&rs[i]);
        extend_chars(&mut v, item.as_slice());
        assert(v@ =~= head + result_items(rs@.take(i + 1)));
        i += 1;
    }
    assert(rs@.take(rs@.len() as int) =~= rs@);
    push_str(&mut v, "]}");
    string_of(v.as_slice())
}

} // verus!
