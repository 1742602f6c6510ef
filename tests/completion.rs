use ikrelln::span::Span;
use ikrelln::watcher::{TraceDone, TraceDoneNow, TraceParser, DEFAULT_DELAY_MS, TRACE_SPAN_LIMIT};

fn span(trace: &str, id: &str, parent: Option<&str>, tags: &[(&str, &str)]) -> Span {
    Span {
        trace_id: trace.to_string(),
        id: id.to_string(),
        parent_id: parent.map(|p| p.to_string()),
        name: Some(id.to_string()),
        service_name: None,
        timestamp: Some(50),
        duration: Some(25),
        tags: tags.iter().map(|(k, v)| (k.to_string(), v.to_string())).collect(),
    }
}

#[test]
fn coalesces_checks_of_one_trace() {
    let mut parser = TraceParser::new(DEFAULT_DELAY_MS);
    let mut checks: Vec<TraceDone> = Vec::new();
    for _ in 0..5 {
        checks.push(parser.handle_span(TraceDoneNow("t1".to_string())));
    }
    let finalized = checks.iter().filter(|c| parser.handle_check(c)).count();
    assert_eq!(finalized, 1);
}

#[test]
fn only_the_latest_check_finalizes() {
    let mut parser = TraceParser::new(10);
    let a = parser.handle_span(TraceDoneNow("t".to_string()));
    let b = parser.handle_span(TraceDoneNow("t".to_string()));
    assert_eq!(a.0, "t");
    assert!(!parser.handle_check(&a));
    assert!(parser.handle_check(&b));
    assert!(!parser.handle_check(&b));
}

#[test]
fn traces_are_independent() {
    let mut parser = TraceParser::new(10);
    let a = parser.handle_span(TraceDoneNow("a".to_string()));
    let b = parser.handle_span(TraceDoneNow("b".to_string()));
    assert!(parser.handle_check(&b));
    assert!(parser.handle_check(&a));
}

#[test]
fn late_span_rearms_after_completion() {
    let mut parser = TraceParser::new(10);
    let a = parser.handle_span(TraceDoneNow("t".to_string()));
    assert!(parser.handle_check(&a));
    let b = parser.handle_span(TraceDoneNow("t".to_string()));
    assert!(parser.handle_check(&b));
}

#[test]
fn watcher_settings() {
    let parser = TraceParser::new(DEFAULT_DELAY_MS);
    assert_eq!(parser.delay_ms(), 10000);
    assert!(parser.can_arm());
    assert_eq!(TRACE_SPAN_LIMIT, 1000);
}

#[test]
fn processes_root_span_of_trace() {
    let spans = vec![
        span("t", "child", Some("root-span"), &[]),
        span(
            "t",
            "root-span",
            None,
            &[("test.suite", "S"), ("test.class", "C"), ("test.result", "success")],
        ),
        span("t", "child2", Some("root-span"), &[]),
    ];
    let done = TraceParser::process_spans(&spans).ok().unwrap();
    assert_eq!(done.0.path, vec!["S".to_string(), "C".to_string()]);
    assert_eq!(done.0.name, "root-span");
    assert_eq!(done.0.nb_spans, 3);
}

#[test]
fn trace_without_root_fails() {
    let spans = vec![span("t", "child", Some("x"), &[])];
    assert_eq!(TraceParser::process_spans(&spans).err().unwrap().tag, "root");
    assert_eq!(TraceParser::process_spans(&Vec::new()).err().unwrap().tag, "root");
}

#[test]
fn root_missing_class_fails() {
    let spans = vec![span("t", "r", None, &[("test.suite", "S"), ("test.result", "success")])];
    assert_eq!(TraceParser::process_spans(&spans).err().unwrap().tag, "test.class");
}
