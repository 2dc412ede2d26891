use string_lexer::results::{
    encode_commit, print_comparison, FullTestOutcome, ReducedResultInfo, ResultInfo,
    ResultsComparison, SuiteResult, TestOutcomeResult, TestResult,
};
use string_lexer::runner::{
    aggregate_suite, is_ignore_entry, planned_runs, run_outcome, test_disposition, Disposition,
    IgnoreSet, Outcome, Phase, TestFlags,
};

fn flags(strict: bool, no_strict: bool, module: bool, raw: bool, is_async: bool) -> TestFlags {
    TestFlags { strict, no_strict, module, raw, is_async }
}

fn test_result(name: &str, result: TestOutcomeResult) -> TestResult {
    TestResult { name: name.to_string(), result, result_text: String::new() }
}

#[test]
fn encode_commit_is_lowercase_hex() {
    assert_eq!(encode_commit(&vec![0xab, 0x01, 0xff]), "ab01ff");
    assert_eq!(encode_commit(&vec![]), "");
    assert_eq!(encode_commit(&vec![0x00, 0x10]), "0010");
}

#[test]
fn reduced_result_info_keeps_the_counts() {
    let suite = SuiteResult {
        name: "suite".to_string(),
        total: 10,
        passed: 7,
        ignored: 2,
        panic: 1,
        suites: Vec::new(),
        tests: Vec::new(),
    };
    let info = ResultInfo {
        commit: "c0ffee".to_string(),
        test262_commit: "ab01".to_string(),
        results: suite,
    };
    let reduced = ReducedResultInfo::from(info);
    assert_eq!(reduced.commit, "c0ffee");
    assert_eq!(reduced.test262_commit, "ab01");
    assert_eq!(reduced.total, 10);
    assert_eq!(reduced.passed, 7);
    assert_eq!(reduced.ignored, 2);
    assert_eq!(reduced.panic, 1);
}

#[test]
fn aggregate_suite_counts_tests_and_subsuites() {
    let tests = vec![
        test_result("a", TestOutcomeResult::Passed),
        test_result("b", TestOutcomeResult::Failed),
        test_result("c", TestOutcomeResult::Ignored),
        test_result("d", TestOutcomeResult::Panic),
        test_result("e", TestOutcomeResult::Passed),
    ];
    let child = aggregate_suite(
        "child".to_string(),
        Vec::new(),
        vec![
            test_result("f", TestOutcomeResult::Passed),
            test_result("g", TestOutcomeResult::Failed),
        ],
    );
    assert_eq!(child.total, 2);
    assert_eq!(child.passed, 1);
    let parent = aggregate_suite("parent".to_string(), vec![child], tests);
    assert_eq!(parent.total, 7);
    assert_eq!(parent.passed, 3);
    assert_eq!(parent.ignored, 1);
    assert_eq!(parent.panic, 1);
    assert_eq!(parent.name, "parent");
}

#[test]
fn disposition_rules() {
    let ignored = IgnoreSet::new();
    let positive = Outcome::Positive;
    let negative_parse = Outcome::Negative { phase: Phase::Parse, error_type: "SyntaxError".to_string() };
    let negative_runtime = Outcome::Negative { phase: Phase::Runtime, error_type: "TypeError".to_string() };
    let name = "test/a.js".to_string();
    assert_eq!(
        test_disposition(&flags(true, true, false, false, false), &name, &ignored, &positive),
        Disposition::RunPositive
    );
    assert_eq!(
        test_disposition(&flags(true, true, false, false, false), &name, &ignored, &negative_parse),
        Disposition::RunNegativeParse
    );
    assert_eq!(
        test_disposition(&flags(true, true, false, false, false), &name, &ignored, &negative_runtime),
        Disposition::Ignore
    );
    assert_eq!(
        test_disposition(&flags(true, true, false, false, true), &name, &ignored, &positive),
        Disposition::Ignore
    );
    assert_eq!(
        test_disposition(&flags(true, true, true, false, false), &name, &ignored, &positive),
        Disposition::Ignore
    );
}

#[test]
fn ignore_set_membership_decides_disposition() {
    let mut ignored = IgnoreSet::new();
    let name = "test/slow.js".to_string();
    let positive = Outcome::Positive;
    let f = flags(true, false, false, false, false);
    assert_eq!(test_disposition(&f, &name, &ignored, &positive), Disposition::RunPositive);
    ignored.insert("test/slow.js".to_string());
    assert_eq!(test_disposition(&f, &name, &ignored, &positive), Disposition::Ignore);
    let other = "test/fast.js".to_string();
    assert_eq!(test_disposition(&f, &other, &ignored, &positive), Disposition::RunPositive);
}

#[test]
fn ignore_entries_skip_blank_and_comment_lines() {
    assert!(!is_ignore_entry(&Vec::new()));
    assert!(!is_ignore_entry(&"// comment".chars().collect()));
    assert!(is_ignore_entry(&"/".chars().collect()));
    assert!(is_ignore_entry(&"test/a.js".chars().collect()));
}

#[test]
fn planned_runs_follow_the_flags() {
    assert_eq!(planned_runs(&flags(true, true, false, true, false)), vec![false]);
    assert_eq!(planned_runs(&flags(true, true, false, false, false)), vec![true, false]);
    assert_eq!(planned_runs(&flags(true, false, false, false, false)), vec![true]);
    assert_eq!(planned_runs(&flags(false, true, false, false, false)), vec![false]);
    assert_eq!(planned_runs(&flags(false, false, false, false, false)), Vec::<bool>::new());
}

#[test]
fn run_outcome_classification() {
    assert_eq!(run_outcome(true, false), TestOutcomeResult::Panic);
    assert_eq!(run_outcome(true, true), TestOutcomeResult::Panic);
    assert_eq!(run_outcome(false, true), TestOutcomeResult::Passed);
    assert_eq!(run_outcome(false, false), TestOutcomeResult::Failed);
}

#[test]
fn comparison_rendering() {
    let comparison = ResultsComparison {
        new_failures: vec![FullTestOutcome {
            test_path: "test/a.js".to_string(),
            result_text: String::new(),
            result: TestOutcomeResult::Failed,
        }],
        new_fixes: vec![FullTestOutcome {
            test_path: "test/b.js".to_string(),
            result_text: String::new(),
            result: TestOutcomeResult::Passed,
        }],
    };
    let text = print_comparison(&comparison);
    assert_eq!(
        text,
        "New failures:\n  test/a.js: failed\nNew fixes:\n  test/b.js: passed\n"
    );
}
