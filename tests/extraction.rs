use ikrelln::extract::{error_status_text, TestResult, TestStatus};
use ikrelln::span::Span;

fn span(tags: &[(&str, &str)]) -> Span {
    Span {
        trace_id: "trace-1".to_string(),
        id: "trace-1".to_string(),
        parent_id: None,
        name: Some("span_name".to_string()),
        service_name: None,
        timestamp: Some(50),
        duration: Some(25),
        tags: tags.iter().map(|(k, v)| (k.to_string(), v.to_string())).collect(),
    }
}

fn missing(s: &Span) -> String {
    match TestResult::try_from(s) {
        Ok(_) => panic!("extraction should fail"),
        Err(e) => e.tag,
    }
}

#[test]
fn extracts_every_field() {
    let s = span(&[
        ("test.suite", "test_suite"),
        ("test.class", "test_class"),
        ("test.name", "my_test"),
        ("test.result", "success"),
        ("test.environment", "staging"),
    ]);
    let t = TestResult::try_from(&s).ok().unwrap();
    assert_eq!(t.path, vec!["test_suite".to_string(), "test_class".to_string()]);
    assert_eq!(t.name, "my_test");
    assert_eq!(t.trace_id, "trace-1");
    assert_eq!(t.date, 50);
    assert_eq!(t.duration, 25);
    assert_eq!(t.status, TestStatus::Success);
    assert_eq!(t.environment, Some("staging".to_string()));
    assert_eq!(t.test_id, "");
    assert!(t.components_called.is_empty());
}

#[test]
fn falls_back_to_service_and_span_name() {
    let mut s = span(&[("test.class", "C"), ("test.result", "skipped")]);
    s.service_name = Some("svc".to_string());
    let t = TestResult::try_from(&s).ok().unwrap();
    assert_eq!(t.path, vec!["svc".to_string(), "C".to_string()]);
    assert_eq!(t.name, "span_name");
    assert_eq!(t.status, TestStatus::Skipped);
    assert_eq!(t.environment, None);
}

#[test]
fn tag_wins_over_fallback() {
    let mut s = span(&[("test.suite", "S"), ("test.class", "C"), ("test.result", "failure")]);
    s.service_name = Some("svc".to_string());
    let t = TestResult::try_from(&s).ok().unwrap();
    assert_eq!(t.path[0], "S");
    assert_eq!(t.status, TestStatus::Failure);
}

#[test]
fn missing_suite_is_reported() {
    let s = span(&[("test.class", "C"), ("test.result", "success")]);
    assert_eq!(missing(&s), "test.suite");
}

#[test]
fn missing_class_is_reported() {
    let s = span(&[("test.suite", "S"), ("test.result", "success"), ("test.name", "n")]);
    assert_eq!(missing(&s), "test.class");
    let bare = span(&[("test.suite", "S")]);
    assert_eq!(missing(&bare), "test.class");
}

#[test]
fn missing_name_is_reported() {
    let mut s = span(&[("test.suite", "S"), ("test.class", "C"), ("test.result", "success")]);
    s.name = None;
    assert_eq!(missing(&s), "test.name");
}

#[test]
fn missing_timestamp_and_duration_are_reported() {
    let mut s = span(&[("test.suite", "S"), ("test.class", "C"), ("test.result", "success")]);
    s.timestamp = None;
    assert_eq!(missing(&s), "ts");
    let mut d = span(&[("test.suite", "S"), ("test.class", "C"), ("test.result", "success")]);
    d.duration = None;
    assert_eq!(missing(&d), "duration");
}

#[test]
fn error_true_means_failure() {
    let s = span(&[("test.suite", "S"), ("test.class", "C"), ("error", "true")]);
    let t = TestResult::try_from(&s).ok().unwrap();
    assert_eq!(t.status, TestStatus::Failure);
    let upper = span(&[("test.suite", "S"), ("test.class", "C"), ("error", "TRUE")]);
    assert_eq!(TestResult::try_from(&upper).ok().unwrap().status, TestStatus::Failure);
}

#[test]
fn error_false_fails_extraction() {
    let s = span(&[("test.suite", "S"), ("test.class", "C"), ("error", "false")]);
    assert_eq!(missing(&s), "test.result");
}

#[test]
fn error_value_passes_through() {
    let s = span(&[("test.suite", "S"), ("test.class", "C"), ("error", "Skipped")]);
    assert_eq!(TestResult::try_from(&s).ok().unwrap().status, TestStatus::Skipped);
}

#[test]
fn result_tag_wins_over_error_tag() {
    let s = span(&[
        ("test.suite", "S"),
        ("test.class", "C"),
        ("test.result", "success"),
        ("error", "true"),
    ]);
    assert_eq!(TestResult::try_from(&s).ok().unwrap().status, TestStatus::Success);
}

#[test]
fn no_status_at_all_fails() {
    let s = span(&[("test.suite", "S"), ("test.class", "C")]);
    assert_eq!(missing(&s), "test.result");
    let bad = span(&[("test.suite", "S"), ("test.class", "C"), ("test.result", "passed")]);
    assert_eq!(missing(&bad), "test.result");
}

#[test]
fn status_parsing_ignores_case() {
    assert_eq!(TestStatus::try_from("SUCCESS").ok(), Some(TestStatus::Success));
    assert_eq!(TestStatus::try_from("Failure").ok(), Some(TestStatus::Failure));
    assert_eq!(TestStatus::try_from("sKiPpEd").ok(), Some(TestStatus::Skipped));
    assert_eq!(TestStatus::try_from("ok").err().unwrap().tag, "test.result");
    assert_eq!(TestStatus::from_lowered("success").ok(), Some(TestStatus::Success));
    assert!(TestStatus::from_lowered("SUCCESS").is_err());
}

#[test]
fn status_codes() {
    assert_eq!(TestStatus::Success.as_i32(), 0);
    assert_eq!(TestStatus::Failure.as_i32(), 1);
    assert_eq!(TestStatus::Skipped.as_i32(), 2);
    assert_eq!(TestStatus::from_i32(0), TestStatus::Success);
    assert_eq!(TestStatus::from_i32(2), TestStatus::Skipped);
    assert_eq!(TestStatus::from_i32(7), TestStatus::Failure);
    assert_eq!(TestStatus::from_i32(-1), TestStatus::Failure);
}

#[test]
fn extraction_is_deterministic() {
    let s = span(&[("test.suite", "S"), ("test.class", "C"), ("test.result", "success")]);
    let a = TestResult::try_from(&s).ok().unwrap();
    let b = TestResult::try_from(&s).ok().unwrap();
    assert_eq!(a.path, b.path);
    assert_eq!(a.name, b.name);
    assert_eq!(a.status, b.status);
    assert_eq!(a.date, b.date);
    assert_eq!(a.duration, b.duration);
}

#[test]
fn first_duplicate_tag_counts() {
    let s = span(&[
        ("test.suite", "first"),
        ("test.suite", "second"),
        ("test.class", "C"),
        ("test.result", "success"),
    ]);
    assert_eq!(s.tag("test.suite"), Some("first".to_string()));
    assert_eq!(TestResult::try_from(&s).ok().unwrap().path[0], "first");
}

#[test]
fn error_text_from_lowercase_form() {
    assert_eq!(error_status_text("TRUE".to_string(), "true"), "failure");
    assert_eq!(error_status_text("False".to_string(), "false"), "False");
    assert_eq!(error_status_text("Skipped".to_string(), "skipped"), "Skipped");
}
