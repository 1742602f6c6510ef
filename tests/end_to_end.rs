use ikrelln::extract::TestStatus;
use ikrelln::query::{GetTestResults, TestResultQuery};
use ikrelln::span::Span;
use ikrelln::store::{ResultCleanupStatus, Store};
use ikrelln::watcher::{TraceDone, TraceDoneNow, TraceParser, DEFAULT_DELAY_MS};

fn root_span(trace: &str, tags: &[(&str, &str)]) -> Span {
    Span {
        trace_id: trace.to_string(),
        id: trace.to_string(),
        parent_id: None,
        name: Some("span_name".to_string()),
        service_name: None,
        timestamp: Some(50),
        duration: Some(25),
        tags: tags.iter().map(|(k, v)| (k.to_string(), v.to_string())).collect(),
    }
}

/// Ingests the spans, fires every check once the window has passed, and
/// stores what the finalizing checks derive.
fn ingest(store: &mut Store, parser: &mut TraceParser, spans: Vec<Span>) -> usize {
    let mut checks: Vec<TraceDone> = Vec::new();
    for s in spans.iter() {
        checks.push(parser.handle_span(TraceDoneNow(s.trace_id.clone())));
    }
    let mut saved = 0;
    for c in checks.iter() {
        if parser.handle_check(c) {
            let of_trace: Vec<Span> = spans
                .iter()
                .filter(|s| s.trace_id == c.0)
                .map(|s| Span {
                    trace_id: s.trace_id.clone(),
                    id: s.id.clone(),
                    parent_id: s.parent_id.clone(),
                    name: s.name.clone(),
                    service_name: s.service_name.clone(),
                    timestamp: s.timestamp,
                    duration: s.duration,
                    tags: s.tags.clone(),
                })
                .collect();
            if let Ok(done) = TraceParser::process_spans(&of_trace) {
                store.save(done.0);
                saved += 1;
            }
        }
    }
    saved
}

fn by_trace(trace: &str) -> GetTestResults {
    let mut q = TestResultQuery::up_to(1_000_000);
    q.trace_id = Some(trace.to_string());
    GetTestResults(q)
}

#[test]
fn should_create_test_result() {
    let mut store = Store::new();
    let mut parser = TraceParser::new(DEFAULT_DELAY_MS);
    let span = root_span(
        "trace-e2e",
        &[("test.suite", "test_suite"), ("test.class", "test_class"), ("test.result", "success")],
    );
    assert_eq!(ingest(&mut store, &mut parser, vec![span]), 1);
    let found = store.get_test_results(&by_trace("trace-e2e"));
    assert_eq!(found.len(), 1);
    let t = &found[0];
    assert_eq!(t.path, vec!["test_suite".to_string(), "test_class".to_string()]);
    assert_eq!(t.name, "span_name");
    assert_eq!(t.status, TestStatus::Success);
    assert_eq!(t.date, 50);
    assert_eq!(t.duration, 25);
    assert_eq!(t.trace_id, "trace-e2e");
    assert_eq!(t.nb_spans, 1);
    assert_eq!(store.results[0].cleanup_status, ResultCleanupStatus::WithData);
}

#[test]
fn many_spans_of_one_trace_store_one_result() {
    let mut store = Store::new();
    let mut parser = TraceParser::new(DEFAULT_DELAY_MS);
    let mut spans = vec![root_span(
        "t",
        &[("test.suite", "S"), ("test.class", "C"), ("test.result", "failure")],
    )];
    for i in 0..4 {
        let mut child = root_span("t", &[]);
        child.id = format!("child-{}", i);
        child.parent_id = Some("t".to_string());
        spans.push(child);
    }
    assert_eq!(ingest(&mut store, &mut parser, spans), 1);
    assert_eq!(store.results.len(), 1);
    let found = store.get_test_results(&by_trace("t"));
    assert_eq!(found.len(), 1);
    assert_eq!(found[0].status, TestStatus::Failure);
    assert_eq!(found[0].nb_spans, 5);
}

#[test]
fn unusable_trace_stores_nothing() {
    let mut store = Store::new();
    let mut parser = TraceParser::new(DEFAULT_DELAY_MS);
    let span = root_span("t", &[("test.suite", "S"), ("test.result", "success")]);
    assert_eq!(ingest(&mut store, &mut parser, vec![span]), 0);
    assert!(store.results.is_empty());
    assert!(store.get_test_results(&by_trace("t")).is_empty());
}

#[test]
fn items_are_shared_between_results() {
    let mut store = Store::new();
    let mut parser = TraceParser::new(DEFAULT_DELAY_MS);
    let a = root_span("a", &[("test.suite", "S"), ("test.class", "C"), ("test.result", "success")]);
    let mut b = root_span("b", &[("test.suite", "S"), ("test.class", "C"), ("test.result", "skipped")]);
    b.timestamp = Some(70);
    ingest(&mut store, &mut parser, vec![a, b]);
    assert_eq!(store.items.len(), 3);
    assert_eq!(store.results[0].test_id, store.results[1].test_id);
    let all = store.get_test_results(&GetTestResults(TestResultQuery::up_to(1_000)));
    assert_eq!(all.len(), 2);
    assert_eq!(all[0].trace_id, "b");
    assert_eq!(all[1].trace_id, "a");
    assert_eq!(all[1].path, vec!["S".to_string(), "C".to_string()]);
}

#[test]
fn find_or_create_reuses_items() {
    let mut store = Store::new();
    let root = "root".to_string();
    let a = store.find_test_or_insert(&"S".to_string(), &root, 0);
    let b = store.find_test_or_insert(&"S".to_string(), &root, 0);
    let c = store.find_test_or_insert(&"S".to_string(), &a, 0);
    assert_eq!(a, b);
    assert_ne!(a, c);
    assert_eq!(store.items.len(), 2);
    assert_eq!(a.len(), 36);
    assert_eq!(store.find_test_item(&"S".to_string(), &root, 1), None);
}

#[test]
fn saving_a_result_again_overwrites_it() {
    let mut store = Store::new();
    let span = root_span("t", &[("test.suite", "S"), ("test.class", "C"), ("test.result", "success")]);
    let first = TraceParser::process_spans(&vec![span]).ok().unwrap().0;
    let saved = store.save(first);
    let items = store.items.len();
    let mut again = root_span("t", &[("test.suite", "S"), ("test.class", "C"), ("test.result", "failure")]);
    again.duration = Some(99);
    let second = TraceParser::process_spans(&vec![again]).ok().unwrap().0;
    let resaved = store.save(second);
    assert_eq!(resaved.test_id, saved.test_id);
    assert_eq!(store.items.len(), items);
    assert_eq!(store.results.len(), 1);
    assert_eq!(store.results[0].duration, 99);
    assert_eq!(store.results[0].status, 1);
    let found = store.get_test_results(&by_trace("t"));
    assert_eq!(found.len(), 1);
    assert_eq!(found[0].status, TestStatus::Failure);
}

#[test]
fn late_span_rearms_and_stores_once() {
    let mut store = Store::new();
    let mut parser = TraceParser::new(DEFAULT_DELAY_MS);
    let span = root_span("t", &[("test.suite", "S"), ("test.class", "C"), ("test.result", "success")]);
    let late = root_span("t", &[("test.suite", "S"), ("test.class", "C"), ("test.result", "success")]);
    assert_eq!(ingest(&mut store, &mut parser, vec![span]), 1);
    assert_eq!(ingest(&mut store, &mut parser, vec![late]), 1);
    assert_eq!(store.results.len(), 1);
    assert_eq!(store.items.len(), 3);
}

#[test]
fn other_traces_of_a_test_are_kept() {
    let mut store = Store::new();
    let a = root_span("a", &[("test.suite", "S"), ("test.class", "C"), ("test.result", "success")]);
    let b = root_span("b", &[("test.suite", "S"), ("test.class", "C"), ("test.result", "success")]);
    store.save(TraceParser::process_spans(&vec![a]).ok().unwrap().0);
    store.save(TraceParser::process_spans(&vec![b]).ok().unwrap().0);
    assert_eq!(store.results.len(), 2);
    assert_eq!(store.results[0].test_id, store.results[1].test_id);
}
