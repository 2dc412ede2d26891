//! The decisions and the bookkeeping of the conformance-suite runner: which
//! tests run and in which modes, how outcomes are classified, and how a
//! suite's counts are accumulated.

use vstd::prelude::*;

use crate::results::{SuiteResult, TestOutcomeResult, TestResult};

verus! {

/// The flags a conformance test carries.
#[derive(Debug, Clone, Copy, PartialEq, Eq, Structural)]
pub struct TestFlags {
    pub strict: bool,
    pub no_strict: bool,
    pub module: bool,
    pub raw: bool,
    pub is_async: bool,
}

/// The phase a negative test expects its error in.
#[derive(Debug, Clone, Copy, PartialEq, Eq, Structural)]
pub enum Phase {
    Parse,
    Early,
    Resolution,
    Runtime,
}

/// The outcome a conformance test expects.
#[derive(Debug, Clone)]
pub enum Outcome {
    Positive,
    Negative { phase: Phase, error_type: String },
}

/// What the runner does with one test.
#[derive(Debug, Clone, Copy, PartialEq, Eq, Structural)]
pub enum Disposition {
    /// The test is not run and counts as ignored.
    Ignore,
    /// The test runs and must evaluate without an error.
    RunPositive,
    /// The test must fail to parse.
    RunNegativeParse,
}

/// The names of the tests that are never run.
#[verifier::external_body]
pub struct IgnoreSet {
    set: fxhash::FxHashSet<Box<str>>,
}

/// The names an ignore set holds.
pub uninterp spec fn ignore_set_contents(s: IgnoreSet) -> Set<Seq<char>>;

impl IgnoreSet {
    /// Relies on fxhash's FxHashSet (std's HashSet with the Fx hasher):
    /// a freshly made set is empty.
    #[verifier::external_body]
    pub fn new() -> (r: IgnoreSet)
        ensures
            ignore_set_contents(r) == Set::<Seq<char>>::empty(),
    {
        IgnoreSet { set: fxhash::FxHashSet::default() }
    }

    /// Relies on HashSet::insert through fxhash's FxHashSet: afterwards the
    /// set holds exactly the old names and the inserted one.
    #[verifier::external_body]
    pub fn insert(&mut self, name: String)
        ensures
            ignore_set_contents(*final(self)) == ignore_set_contents(*old(self)).insert(name@),
    {
        self.set.insert(name.into_boxed_str());
    }

    /// Relies on HashSet::contains through fxhash's FxHashSet: true exactly
    /// when an equal name was inserted.
    #[verifier::external_body]
    pub fn contains(&self, name: &String) -> (r: bool)
        ensures
            r == ignore_set_contents(*self).contains(name@),
    {
        self.set.contains(name.as_str())
    }
}

/// A line of the ignore file names a test when it is neither empty nor a
/// comment line opened by two slashes.
pub open spec fn ignore_entry_spec(line: Seq<char>) -> bool {
    line.len() > 0 && !(line.len() >= 2 && line[0] == '/' && line[1] == '/')
}

/// Decides whether an ignore-file line (handed over as its characters) names
/// a test.
pub fn is_ignore_entry(line: &Vec<char>) -> (r: bool)
    ensures
        r == ignore_entry_spec(line@),
{
    if line.len() == 0 {
        false
    } else if line.len() >= 2 {
        !(line[0] == '/' && line[1] == '/')
    } else {
        true
    }
}

/// What the runner does with a test: ignored when flagged async or module,
/// when its name is in the ignore set, or when it expects an error outside
/// the parse phase; run otherwise, as its expected outcome directs.
pub open spec fn disposition_spec(
    flags: TestFlags,
    name: Seq<char>,
    ignored: Set<Seq<char>>,
    expected: Outcome,
) -> Disposition {
    if flags.is_async || flags.module || ignored.contains(name) {
        Disposition::Ignore
    } else {
        match expected {
            Outcome::Positive => Disposition::RunPositive,
            Outcome::Negative { phase: Phase::Parse, .. } => Disposition::RunNegativeParse,
            Outcome::Negative { .. } => Disposition::Ignore,
        }
    }
}

/// Decides what to do with one test.
pub fn test_disposition(
    flags: &TestFlags,
    name: &String,
    ignored: &IgnoreSet,
    expected: &Outcome,
) -> (d: Disposition)
    ensures
        d == disposition_spec(*flags, name@, ignore_set_contents(*ignored), *expected),
{
    if flags.is_async || flags.module || ignored.contains(name) {
        Disposition::Ignore
    } else {
        match expected {
            Outcome::Positive => Disposition::RunPositive,
            Outcome::Negative { phase: Phase::Parse, .. } => Disposition::RunNegativeParse,
            Outcome::Negative { .. } => Disposition::Ignore,
        }
    }
}

/// The strict-mode settings a positive test is evaluated under, in order: a
/// raw test runs once without strict mode; otherwise a strict run when the
/// strict flag is set, then a non-strict run when the no-strict flag is set.
/// A later run happens only while every earlier one passed.
pub open spec fn planned_runs_spec(flags: TestFlags) -> Seq<bool> {
    if flags.raw {
        seq![false]
    } else {
        (if flags.strict {
            seq![true]
        } else {
            Seq::empty()
        }) + (if flags.no_strict {
            seq![false]
        } else {
            Seq::empty()
        })
    }
}

/// Plans the runs of a positive test.
pub fn planned_runs(flags: &TestFlags) -> (r: Vec<bool>)
    ensures
        r@ == planned_runs_spec(*flags),
{
    let mut r: Vec<bool> = Vec::new();
    if flags.raw {
        r.push(false);
        proof {
            assert(r@ =~= planned_runs_spec(*flags));
        }
    } else {
        if flags.strict {
            r.push(true);
        }
        if flags.no_strict {
            r.push(false);
        }
        proof {
            assert(r@ =~= planned_runs_spec(*flags));
        }
    }
    r
}

/// Classifies one run of a test: a caught panic, else pass or failure.
pub fn run_outcome(panicked: bool, passed: bool) -> (r: TestOutcomeResult)
    ensures
        panicked ==> r == TestOutcomeResult::Panic,
        !panicked && passed ==> r == TestOutcomeResult::Passed,
        !panicked && !passed ==> r == TestOutcomeResult::Failed,
{
    if panicked {
        TestOutcomeResult::Panic
    } else if passed {
        TestOutcomeResult::Passed
    } else {
        TestOutcomeResult::Failed
    }
}

/// How many of `tests` ended as `o`.
pub open spec fn count_outcome(tests: Seq<TestResult>, o: TestOutcomeResult) -> int
    decreases tests.len(),
{
    if tests.len() == 0 {
        0
    } else {
        count_outcome(tests.take(tests.len() - 1), o) + if tests.last().result == o {
            1int
        } else {
            0int
        }
    }
}

proof fn lemma_count_outcome_bound(tests: Seq<TestResult>, o: TestOutcomeResult)
    ensures
        0 <= count_outcome(tests, o) <= tests.len(),
    decreases tests.len(),
{
    if tests.len() > 0 {
        lemma_count_outcome_bound(tests.take(tests.len() - 1), o);
    }
}

/// The sum of the `total` counts of `suites`.
pub open spec fn sum_total(suites: Seq<SuiteResult>) -> int
    decreases suites.len(),
{
    if suites.len() == 0 {
        0
    } else {
        sum_total(suites.take(suites.len() - 1)) + suites.last().total
    }
}

/// The sum of the `passed` counts of `suites`.
pub open spec fn sum_passed(suites: Seq<SuiteResult>) -> int
    decreases suites.len(),
{
    if suites.len() == 0 {
        0
    } else {
        sum_passed(suites.take(suites.len() - 1)) + suites.last().passed
    }
}

/// The sum of the `ignored` counts of `suites`.
pub open spec fn sum_ignored(suites: Seq<SuiteResult>) -> int
    decreases suites.len(),
{
    if suites.len() == 0 {
        0
    } else {
        sum_ignored(suites.take(suites.len() - 1)) + suites.last().ignored
    }
}

/// The sum of the `panic` counts of `suites`.
pub open spec fn sum_panic(suites: Seq<SuiteResult>) -> int
    decreases suites.len(),
{
    if suites.len() == 0 {
        0
    } else {
        sum_panic(suites.take(suites.len() - 1)) + suites.last().panic
    }
}

proof fn lemma_sums_prefix(suites: Seq<SuiteResult>, j: int)
    requires
        0 <= j <= suites.len(),
    ensures
        0 <= sum_total(suites.take(j)) <= sum_total(suites),
        0 <= sum_passed(suites.take(j)) <= sum_passed(suites),
        0 <= sum_ignored(suites.take(j)) <= sum_ignored(suites),
        0 <= sum_panic(suites.take(j)) <= sum_panic(suites),
    decreases suites.len(),
{
    if suites.len() == 0 {
        assert(suites.take(j) =~= suites);
    } else if j == suites.len() {
        assert(suites.take(j) =~= suites);
        let butlast = suites.take(suites.len() - 1);
        lemma_sums_prefix(butlast, butlast.len() as int);
        assert(butlast.take(butlast.len() as int) =~= butlast);
    } else {
        let butlast = suites.take(suites.len() - 1);
        lemma_sums_prefix(butlast, j);
        assert(butlast.take(j) =~= suites.take(j));
    }
}

/// Accumulates a suite's counts from the tests it ran itself and the results
/// of its sub-suites: each count is the matching tests plus the sub-suites'
/// counts, and the total is every test seen anywhere below.
#[verifier::loop_isolation(false)]
pub fn aggregate_suite(name: String, suites: Vec<SuiteResult>, tests: Vec<TestResult>) -> (r:
    SuiteResult)
    requires
        tests@.len() + sum_total(suites@) <= usize::MAX,
        count_outcome(tests@, TestOutcomeResult::Passed) + sum_passed(suites@) <= usize::MAX,
        count_outcome(tests@, TestOutcomeResult::Ignored) + sum_ignored(suites@) <= usize::MAX,
        count_outcome(tests@, TestOutcomeResult::Panic) + sum_panic(suites@) <= usize::MAX,
    ensures
        r.name == name,
        r.suites == suites,
        r.tests == tests,
        r.total as int == tests@.len() + sum_total(suites@),
        r.passed as int == count_outcome(tests@, TestOutcomeResult::Passed) + sum_passed(suites@),
        r.ignored as int == count_outcome(tests@, TestOutcomeResult::Ignored) + sum_ignored(
            suites@,
        ),
        r.panic as int == count_outcome(tests@, TestOutcomeResult::Panic) + sum_panic(suites@),
{
    let mut passed: usize = 0;
    let mut ignored: usize = 0;
    let mut panic: usize = 0;
    let mut i: usize = 0;
    proof {
        assert(tests@.take(0) =~= Seq::<TestResult>::empty());
        lemma_sums_prefix(suites@, suites@.len() as int);
        assert(suites@.take(suites@.len() as int) =~= suites@);
        lemma_count_outcome_bound(tests@, TestOutcomeResult::Passed);
        lemma_count_outcome_bound(tests@, TestOutcomeResult::Ignored);
        lemma_count_outcome_bound(tests@, TestOutcomeResult::Panic);
    }
    while i < tests.len()
        invariant
            i <= tests.len(),
            passed as int == count_outcome(tests@.take(i as int), TestOutcomeResult::Passed),
            ignored as int == count_outcome(tests@.take(i as int), TestOutcomeResult::Ignored),
            panic as int == count_outcome(tests@.take(i as int), TestOutcomeResult::Panic),
            passed <= i && ignored <= i && panic <= i,
        decreases tests@.len() - i,
    {
        proof {
            let t1 = tests@.take(i as int + 1);
            assert(t1.take(t1.len() - 1) =~= tests@.take(i as int));
            assert(t1.last() == tests@[i as int]);
            lemma_count_outcome_bound(tests@.take(i as int), TestOutcomeResult::Passed);
        }
        match tests[i].result {
            TestOutcomeResult::Passed => {
                passed = passed + 1;
            },
            TestOutcomeResult::Ignored => {
                ignored = ignored + 1;
            },
            TestOutcomeResult::Panic => {
                panic = panic + 1;
            },
            TestOutcomeResult::Failed => {
            },
        }
        i = i + 1;
    }
    proof {
        assert(tests@.take(tests@.len() as int) =~= tests@);
    }
    let mut total: usize = tests.len();
    let mut j: usize = 0;
    proof {
        assert(suites@.take(0) =~= Seq::<SuiteResult>::empty());
    }
    while j < suites.len()
        invariant
            j <= suites.len(),
            total as int == tests@.len() + sum_total(suites@.take(j as int)),
            passed as int == count_outcome(tests@, TestOutcomeResult::Passed) + sum_passed(
                suites@.take(j as int),
            ),
            ignored as int == count_outcome(tests@, TestOutcomeResult::Ignored) + sum_ignored(
                suites@.take(j as int),
            ),
            panic as int == count_outcome(tests@, TestOutcomeResult::Panic) + sum_panic(
                suites@.take(j as int),
            ),
        decreases suites@.len() - j,
    {
        proof {
            let t1 = suites@.take(j as int + 1);
            assert(t1.take(t1.len() - 1) =~= suites@.take(j as int));
            assert(t1.last() == suites@[j as int]);
            lemma_sums_prefix(suites@, j as int + 1);
        }
        total = total + suites[j].total;
        passed = passed + suites[j].passed;
        ignored = ignored + suites[j].ignored;
        panic = panic + suites[j].panic;
        j = j + 1;
    }
    proof {
        assert(suites@.take(suites@.len() as int) =~= suites@);
    }
    SuiteResult { name, total, passed, ignored, panic, suites, tests }
}

} // verus!
