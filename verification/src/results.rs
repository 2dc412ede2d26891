//! Conformance-run result records: full and reduced result information, the
//! hexadecimal spelling of commit identifiers, and the rendering of a result
//! comparison.

use vstd::prelude::*;
use vstd::string::StringExecFns;

verus! {

/// How one conformance test ended.
#[derive(Debug, Clone, Copy, PartialEq, Eq, Structural)]
pub enum TestOutcomeResult {
    Passed,
    Ignored,
    Failed,
    Panic,
}

/// The outcome of a single test.
#[derive(Debug, Clone)]
pub struct TestResult {
    pub name: String,
    pub result: TestOutcomeResult,
    pub result_text: String,
}

/// The outcome of a test suite: its counts and its parts.
#[derive(Debug)]
pub struct SuiteResult {
    pub name: String,
    pub total: usize,
    pub passed: usize,
    pub ignored: usize,
    pub panic: usize,
    pub suites: Vec<SuiteResult>,
    pub tests: Vec<TestResult>,
}

/// Structure to store full result information.
#[derive(Debug)]
pub struct ResultInfo {
    pub commit: String,
    pub test262_commit: String,
    pub results: SuiteResult,
}

/// Structure to store reduced result information: the counts alone.
#[derive(Debug, Clone)]
pub struct ReducedResultInfo {
    pub commit: String,
    pub test262_commit: String,
    pub total: usize,
    pub passed: usize,
    pub ignored: usize,
    pub panic: usize,
}

impl From<ResultInfo> for ReducedResultInfo {
    /// Creates a new reduced suite result from a full suite result.
    fn from(info: ResultInfo) -> Self {
        ReducedResultInfo {
            commit: info.commit,
            test262_commit: info.test262_commit,
            total: info.results.total,
            passed: info.results.passed,
            ignored: info.results.ignored,
            panic: info.results.panic,
        }
    }
}

impl vstd::std_specs::convert::FromSpecImpl<ResultInfo> for ReducedResultInfo {
    open spec fn obeys_from_spec() -> bool {
        true
    }

    open spec fn from_spec(info: ResultInfo) -> Self {
        ReducedResultInfo {
            commit: info.commit,
            test262_commit: info.test262_commit,
            total: info.results.total,
            passed: info.results.passed,
            ignored: info.results.ignored,
            panic: info.results.panic,
        }
    }
}

/// The lowercase hexadecimal digit of a value below 16.
pub open spec fn hex_digit_char(v: int) -> char {
    if v < 10 {
        ((48 + v) as u32) as char
    } else {
        ((87 + v) as u32) as char
    }
}

/// Each byte written as two lowercase hexadecimal digits, high nibble first.
pub open spec fn hex_of_bytes(b: Seq<u8>) -> Seq<char>
    decreases b.len(),
{
    if b.len() == 0 {
        Seq::empty()
    } else {
        seq![hex_digit_char(b[0] as int / 16), hex_digit_char(b[0] as int % 16)] + hex_of_bytes(
            b.skip(1),
        )
    }
}

/// Relies on hex::encode: it writes each input byte as two lowercase
/// hexadecimal digits, high nibble first, in input order.
#[verifier::external_body]
fn hex_encode(bytes: &Vec<u8>) -> (r: String)
    ensures
        r@ == hex_of_bytes(bytes@),
{
    hex::encode(bytes.as_slice())
}

/// The hexadecimal spelling of a commit identifier handed over as its bytes.
pub fn encode_commit(oid: &Vec<u8>) -> (r: String)
    ensures
        r@ == hex_of_bytes(oid@),
{
    hex_encode(oid)
}

/// Similar to a `TestResult`, but with the full path to the file.
#[derive(Debug, Clone)]
pub struct FullTestOutcome {
    pub test_path: String,
    pub result_text: String,
    pub result: TestOutcomeResult,
}

/// Results of a test comparison.
#[derive(Debug, Clone)]
pub struct ResultsComparison {
    pub new_failures: Vec<FullTestOutcome>,
    pub new_fixes: Vec<FullTestOutcome>,
}

/// The word a comparison line uses for an outcome.
pub open spec fn outcome_label(o: TestOutcomeResult) -> Seq<char> {
    match o {
        TestOutcomeResult::Passed => "passed"@,
        TestOutcomeResult::Ignored => "ignored"@,
        TestOutcomeResult::Failed => "failed"@,
        TestOutcomeResult::Panic => "panicked"@,
    }
}

/// One comparison line: the test's path and how it now ends.
pub open spec fn outcome_line(o: FullTestOutcome) -> Seq<char> {
    "  "@ + o.test_path@ + ": "@ + outcome_label(o.result) + "\n"@
}

/// The comparison lines for `s`, in order.
pub open spec fn outcome_lines(s: Seq<FullTestOutcome>) -> Seq<char>
    decreases s.len(),
{
    if s.len() == 0 {
        Seq::empty()
    } else {
        outcome_lines(s.take(s.len() - 1)) + outcome_line(s.last())
    }
}

/// The full text of a rendered comparison.
pub open spec fn comparison_text(c: ResultsComparison) -> Seq<char> {
    "New failures:\n"@ + outcome_lines(c.new_failures@) + "New fixes:\n"@ + outcome_lines(
        c.new_fixes@,
    )
}

fn outcome_label_str(o: &TestOutcomeResult) -> (r: &'static str)
    ensures
        r@ == outcome_label(*o),
{
    match o {
        TestOutcomeResult::Passed => "passed",
        TestOutcomeResult::Ignored => "ignored",
        TestOutcomeResult::Failed => "failed",
        TestOutcomeResult::Panic => "panicked",
    }
}

#[verifier::loop_isolation(false)]
fn append_outcome_lines(out: &mut String, items: &Vec<FullTestOutcome>)
    ensures
        final(out)@ == old(out)@ + outcome_lines(items@),
{
    let ghost orig = out@;
    let mut i: usize = 0;
    proof {
        assert(items@.take(0) =~= Seq::<FullTestOutcome>::empty());
        assert(out@ =~= orig + outcome_lines(items@.take(0)));
    }
    while i < items.len()
        invariant
            i <= items.len(),
            out@ == orig + outcome_lines(items@.take(i as int)),
        decreases items@.len() - i,
    {
        let ghost before = out@;
        out.append("  ");
        out.append(items[i].test_path.as_str());
        out.append(": ");
        out.append(outcome_label_str(&items[i].result));
        out.append("\n");
        proof {
            let t1 = items@.take(i as int + 1);
            assert(t1.take(t1.len() - 1) =~= items@.take(i as int));
            assert(t1.last() == items@[i as int]);
            assert(out@ =~= before + outcome_line(items@[i as int]));
            assert(out@ =~= orig + outcome_lines(items@.take(i as int + 1)));
        }
        i = i + 1;
    }
    proof {
        assert(items@.take(items@.len() as int) =~= items@);
    }
}

/// Renders the result comparison: the tests that newly fail, then the tests
/// that are newly fixed, one line each.
pub fn print_comparison(comparison: &ResultsComparison) -> (r: String)
    ensures
        r@ == comparison_text(*comparison),
{
    let mut out = String::new();
    out.append("New failures:\n");
    append_outcome_lines(&mut out, &comparison.new_failures);
    out.append("New fixes:\n");
    append_outcome_lines(&mut out, &comparison.new_fixes);
    proof {
        assert(out@ =~= comparison_text(*comparison));
    }
    out
}

} // verus!
