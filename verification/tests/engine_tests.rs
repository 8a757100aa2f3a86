use autograder::coverage::CoverageSummary;
use autograder::error::MyError;
use autograder::outcome::TestOutcome;
use autograder::rat::Rat;
use autograder::report::Report;
use autograder::score_map::ScoreMap;

fn outcome(name: &str, passed: bool) -> TestOutcome {
    TestOutcome { name: name.to_string(), passed, message: None }
}

fn config(
    line_coverage: Rat,
    their_tests: Rat,
    our_tests: Vec<(&str, Rat)>,
) -> ScoreMap {
    ScoreMap {
        line_coverage,
        their_tests,
        our_tests: our_tests.into_iter().map(|(n, w)| (n.to_string(), w)).collect(),
    }
}

#[test]
fn end_to_end_scenario() {
    let c = config(
        Rat::whole(10),
        Rat::whole(20),
        vec![("test_a", Rat::whole(5)), ("test_b", Rat::whole(5))],
    );
    let ours = vec![outcome("test_a", true), outcome("test_b", true)];
    let theirs = vec![
        outcome("t1", true),
        outcome("t2", true),
        outcome("t3", true),
        outcome("t4", false),
    ];
    let cov = CoverageSummary::new(200, 150);
    let rep = Report::build(&c, &ours, &theirs, &cov).unwrap();
    // 100 * (10 + 15 + 7.5) / (10 + 20 + 10) = 81.25
    assert!(rep.total_score.same_value(&Rat::new(325, 4)));
    assert_eq!(rep.tests.len(), 7);
}

#[test]
fn entries_are_ordered_by_bucket_and_name() {
    let c = config(
        Rat::whole(10),
        Rat::whole(20),
        vec![("zeta", Rat::whole(5)), ("alpha", Rat::whole(5))],
    );
    let ours = vec![outcome("zeta", true), outcome("alpha", false)];
    let theirs = vec![outcome("c", true), outcome("a", true), outcome("b", false)];
    let cov = CoverageSummary::new(10, 5);
    let rep = Report::build(&c, &ours, &theirs, &cov).unwrap();
    let names: Vec<&str> = rep.tests.iter().map(|e| e.name.as_str()).collect();
    assert_eq!(names, vec!["alpha", "zeta", "a", "b", "c", "line_coverage"]);
}

#[test]
fn identical_inputs_give_identical_reports() {
    let c = config(
        Rat::whole(10),
        Rat::whole(20),
        vec![("test_a", Rat::whole(5)), ("test_b", Rat::whole(5))],
    );
    let ours = vec![outcome("test_b", true), outcome("test_a", false)];
    let theirs = vec![outcome("y", false), outcome("x", true)];
    let cov = CoverageSummary::new(100, 40);
    let r1 = Report::build(&c, &ours, &theirs, &cov).unwrap();
    let r2 = Report::build(&c, &ours, &theirs, &cov).unwrap();
    assert_eq!(r1.tests.len(), r2.tests.len());
    for (a, b) in r1.tests.iter().zip(r2.tests.iter()) {
        assert_eq!(a.name, b.name);
        assert_eq!(a.score.num, b.score.num);
        assert_eq!(a.score.den, b.score.den);
        assert_eq!(a.max_score.num, b.max_score.num);
        assert_eq!(a.max_score.den, b.max_score.den);
        assert_eq!(a.output, b.output);
    }
    assert_eq!(r1.total_score.num, r2.total_score.num);
    assert_eq!(r1.total_score.den, r2.total_score.den);
}

#[test]
fn weight_sharing_gives_each_test_an_equal_share() {
    let c = config(Rat::whole(0), Rat::whole(20), vec![]);
    let ours: Vec<TestOutcome> = vec![];
    let theirs = vec![
        outcome("a", true),
        outcome("b", true),
        outcome("c", false),
        outcome("d", true),
    ];
    let cov = CoverageSummary::new(1, 1);
    let rep = Report::build(&c, &ours, &theirs, &cov).unwrap();
    let five = Rat::whole(5);
    let mut bucket_max = Rat::zero();
    for e in rep.tests.iter().take(4) {
        assert!(e.max_score.same_value(&five));
        bucket_max = bucket_max.add(&e.max_score).unwrap();
    }
    assert!(bucket_max.same_value(&Rat::whole(20)));
}

#[test]
fn no_submission_tests_contribute_nothing() {
    let c = config(
        Rat::whole(10),
        Rat::whole(20),
        vec![("test_a", Rat::whole(5))],
    );
    let ours = vec![outcome("test_a", true)];
    let theirs: Vec<TestOutcome> = vec![];
    let cov = CoverageSummary::new(10, 10);
    let rep = Report::build(&c, &ours, &theirs, &cov).unwrap();
    assert_eq!(rep.tests.len(), 2);
    // 100 * (5 + 10) / (5 + 10) = 100
    assert!(rep.total_score.same_value(&Rat::whole(100)));
}

#[test]
fn name_set_mismatch_fails_validation() {
    let c = config(
        Rat::whole(10),
        Rat::whole(20),
        vec![("test_a", Rat::whole(5)), ("test_b", Rat::whole(5))],
    );
    let cov = CoverageSummary::new(10, 10);
    let theirs: Vec<TestOutcome> = vec![];
    // subset: one configured test missing from the observed set
    let subset = vec![outcome("test_a", true)];
    assert!(matches!(
        Report::build(&c, &subset, &theirs, &cov),
        Err(MyError::Validation { .. })
    ));
    // superset: an extra observed test
    let superset = vec![
        outcome("test_a", true),
        outcome("test_b", true),
        outcome("test_c", true),
    ];
    assert!(matches!(
        Report::build(&c, &superset, &theirs, &cov),
        Err(MyError::Validation { .. })
    ));
    // disjoint
    let disjoint = vec![outcome("other", true)];
    assert!(matches!(
        Report::build(&c, &disjoint, &theirs, &cov),
        Err(MyError::Validation { .. })
    ));
}

#[test]
fn zero_combined_maximum_fails_assembly() {
    let c = config(
        Rat::whole(0),
        Rat::whole(0),
        vec![("test_a", Rat::whole(0))],
    );
    let ours = vec![outcome("test_a", true)];
    let theirs = vec![outcome("t", true)];
    let cov = CoverageSummary::new(100, 50);
    assert!(matches!(
        Report::build(&c, &ours, &theirs, &cov),
        Err(MyError::Validation { .. })
    ));
}

#[test]
fn three_way_sharing_still_sums_exactly() {
    let c = config(Rat::whole(0), Rat::whole(10), vec![]);
    let ours: Vec<TestOutcome> = vec![];
    let theirs = vec![outcome("a", true), outcome("b", true), outcome("c", true)];
    let cov = CoverageSummary::new(1, 1);
    let rep = Report::build(&c, &ours, &theirs, &cov).unwrap();
    let third = Rat::new(10, 3);
    let mut bucket_max = Rat::zero();
    for e in rep.tests.iter().take(3) {
        assert!(e.max_score.same_value(&third));
        bucket_max = bucket_max.add(&e.max_score).unwrap();
    }
    assert!(bucket_max.same_value(&Rat::whole(10)));
}

#[test]
fn unrepresentable_share_is_an_overflow_error() {
    let c = config(Rat::whole(1), Rat::new(1, u64::MAX), vec![]);
    let ours: Vec<TestOutcome> = vec![];
    let theirs = vec![outcome("a", true), outcome("b", true)];
    let cov = CoverageSummary::new(1, 1);
    assert!(matches!(
        Report::build(&c, &ours, &theirs, &cov),
        Err(MyError::ScoreOverflow { .. })
    ));
}

#[test]
fn failed_test_carries_its_message() {
    let c = config(Rat::whole(0), Rat::whole(10), vec![("test_a", Rat::whole(1))]);
    let ours = vec![TestOutcome {
        name: "test_a".to_string(),
        passed: false,
        message: Some("assertion failed".to_string()),
    }];
    let theirs = vec![outcome("t", true)];
    let cov = CoverageSummary::new(1, 0);
    let rep = Report::build(&c, &ours, &theirs, &cov).unwrap();
    let entry = &rep.tests[0];
    assert_eq!(entry.name, "test_a");
    assert_eq!(entry.output.as_deref(), Some("assertion failed"));
    assert!(entry.score.same_value(&Rat::zero()));
    assert!(entry.max_score.same_value(&Rat::whole(1)));
}

#[test]
fn passed_test_shows_no_output() {
    let c = config(Rat::whole(0), Rat::whole(10), vec![("test_a", Rat::whole(1))]);
    let ours = vec![TestOutcome {
        name: "test_a".to_string(),
        passed: true,
        message: Some("noise".to_string()),
    }];
    let theirs = vec![outcome("t", true)];
    let cov = CoverageSummary::new(1, 0);
    let rep = Report::build(&c, &ours, &theirs, &cov).unwrap();
    let entry = &rep.tests[0];
    assert_eq!(entry.output, None);
    assert!(entry.score.same_value(&Rat::whole(1)));
}
