use autograder::coverage::{read_coverage, CoverageSummary};
use autograder::error::MyError;
use autograder::rat::Rat;
use autograder::report::TestReport;

#[test]
fn coverage_scaling_exact_value() {
    let summary = CoverageSummary::new(200, 150);
    let budget = Rat::whole(10);
    let entry = TestReport::line_coverage(&summary, &budget).unwrap();
    // 10 * 150 / 200 = 7.5
    assert!(entry.score.same_value(&Rat::new(15, 2)));
    assert!(entry.max_score.same_value(&Rat::whole(10)));
    assert_eq!(entry.name, "line_coverage");
}

#[test]
fn no_instrumented_lines_scores_zero() {
    let summary = CoverageSummary::new(0, 0);
    let budget = Rat::whole(10);
    let entry = TestReport::line_coverage(&summary, &budget).unwrap();
    assert!(entry.score.same_value(&Rat::zero()));
    assert!(entry.max_score.same_value(&Rat::whole(10)));
}

#[test]
fn coverage_entry_always_renders_the_counts() {
    let summary = CoverageSummary::new(200, 150);
    let entry = TestReport::line_coverage(&summary, &Rat::whole(10)).unwrap();
    assert_eq!(
        entry.output.as_deref(),
        Some("covered 150 of 200 instrumented lines")
    );
}

#[test]
fn lcov_text_aggregates_per_file_counts() {
    let text = "TN:\nSF:src/a.rs\nDA:1,5\nLF:120\nLH:80\nend_of_record\nTN:\nSF:src/b.rs\nLF:80\nLH:70\nend_of_record\n";
    let summary = read_coverage(text).unwrap();
    assert_eq!(summary.lines_found, 200);
    assert_eq!(summary.lines_hit, 150);
}

#[test]
fn unparseable_lcov_text_is_a_coverage_error() {
    let err = read_coverage("this is not a tracefile").unwrap_err();
    assert!(matches!(err, MyError::CoverageRead { .. }));
}

#[test]
fn more_hit_than_found_is_a_coverage_error() {
    let text = "SF:src/a.rs\nLF:10\nLH:20\nend_of_record\n";
    let err = read_coverage(text).unwrap_err();
    assert!(matches!(err, MyError::CoverageRead { .. }));
}
