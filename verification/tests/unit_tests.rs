use autograder::error::MyError;
use autograder::outcome::{relevant_outcomes, Event, TestResult, Type};
use autograder::rat::Rat;
use autograder::report::{TestReport, Visibility};
use autograder::score_map::ScoreMap;

fn record(kind: Type, name: &str, event: Event) -> TestResult {
    TestResult {
        kind,
        name: name.to_string(),
        event,
        stdout: None,
        message: None,
    }
}

#[test]
fn rational_arithmetic_is_exact() {
    let a = Rat::new(1, 3);
    let b = Rat::new(1, 6);
    let sum = a.add(&b).unwrap();
    assert!(sum.same_value(&Rat::new(1, 2)));
    let share = Rat::whole(10).div_by(4).unwrap();
    assert!(share.same_value(&Rat::new(5, 2)));
    assert!(Rat::new(2, 4).same_value(&Rat::new(1, 2)));
    assert!(!Rat::new(2, 4).same_value(&Rat::new(2, 3)));
    assert!(Rat::new(1, 3).le_value(&Rat::new(1, 2)));
    assert!(!Rat::new(1, 2).le_value(&Rat::new(1, 3)));
}

#[test]
fn addition_overflow_is_reported() {
    let big = Rat::new(u64::MAX, 1);
    assert!(big.add(&Rat::new(1, 2)).is_none());
    assert!(Rat::new(1, u64::MAX).add(&Rat::new(1, 2)).is_none());
}

#[test]
fn only_finished_test_records_become_outcomes() {
    let records = vec![
        record(Type::Suite, "", Event::Started),
        record(Type::Test, "a", Event::Started),
        record(Type::Test, "a", Event::Passed),
        record(Type::Test, "b", Event::Failed),
        record(Type::Suite, "", Event::Failed),
    ];
    let outcomes = relevant_outcomes(&records);
    assert_eq!(outcomes.len(), 2);
    assert_eq!(outcomes[0].name, "a");
    assert!(outcomes[0].passed);
    assert_eq!(outcomes[1].name, "b");
    assert!(!outcomes[1].passed);
}

#[test]
fn failed_record_keeps_stdout_over_message() {
    let mut r = record(Type::Test, "a", Event::Failed);
    r.stdout = Some("captured".to_string());
    r.message = Some("fallback".to_string());
    let outcomes = relevant_outcomes(&vec![r]);
    assert_eq!(outcomes[0].message.as_deref(), Some("captured"));
    let mut r2 = record(Type::Test, "a", Event::Failed);
    r2.message = Some("fallback".to_string());
    let outcomes2 = relevant_outcomes(&vec![r2]);
    assert_eq!(outcomes2[0].message.as_deref(), Some("fallback"));
}

#[test]
fn weight_resolution_is_strict() {
    let c = ScoreMap {
        line_coverage: Rat::whole(10),
        their_tests: Rat::whole(20),
        our_tests: vec![
            ("test_a".to_string(), Rat::new(5, 2)),
            ("test_b".to_string(), Rat::whole(3)),
        ],
    };
    let w = c.weight_for(&"test_a".to_string()).unwrap();
    assert!(w.same_value(&Rat::new(5, 2)));
    let missing = c.weight_for(&"unknown".to_string()).unwrap_err();
    assert!(matches!(missing, MyError::Validation { .. }));
}

#[test]
fn configuration_exposes_names_and_values() {
    let c = ScoreMap {
        line_coverage: Rat::whole(10),
        their_tests: Rat::whole(20),
        our_tests: vec![
            ("test_a".to_string(), Rat::whole(5)),
            ("test_b".to_string(), Rat::whole(3)),
        ],
    };
    let names = c.our_test_names();
    assert_eq!(names, vec!["test_a".to_string(), "test_b".to_string()]);
    let values = c.values();
    assert_eq!(values.len(), 4);
    assert!(values[0].same_value(&Rat::whole(5)));
    assert!(values[1].same_value(&Rat::whole(3)));
    assert!(values[2].same_value(&Rat::whole(10)));
    assert!(values[3].same_value(&Rat::whole(20)));
}

#[test]
fn error_messages_are_kept() {
    let e = MyError::Io { msg: "cannot read scores".to_string() };
    assert_eq!(e.message(), "cannot read scores");
}

#[test]
fn entries_can_be_built_directly() {
    let e = TestReport::new(
        "demo".to_string(),
        Rat::whole(1),
        Rat::whole(2),
        Some("out".to_string()),
        Some(Visibility::Hidden),
    );
    assert_eq!(e.name, "demo");
    assert!(e.score.same_value(&Rat::whole(1)));
    assert!(e.max_score.same_value(&Rat::whole(2)));
    assert_eq!(e.output.as_deref(), Some("out"));
    assert_eq!(e.visibility, Some(Visibility::Hidden));
}
