use ikrelln::retention::{CleanUp, CleanupConfig};
use ikrelln::store::{
    AnnotationRow, ReportDb, ReportMembership, ResultCleanupStatus, SpanRow, Store, TagRow,
    TestResultDb,
};

const HOUR_MS: i64 = 3_600_000;
const HOUR_US: i64 = 3_600_000_000;

fn config() -> CleanupConfig {
    CleanupConfig {
        delay_test_results: 48 * HOUR_MS,
        delay_spans: 24 * HOUR_MS,
        delay_reports: 72 * HOUR_MS,
        schedule: 60_000,
    }
}

fn result(trace: &str, age_h: i64, now: i64, status: ResultCleanupStatus) -> TestResultDb {
    TestResultDb {
        test_id: format!("test-{}", trace),
        trace_id: trace.to_string(),
        date: now - age_h * HOUR_US,
        status: 0,
        duration: 25,
        environment: None,
        components_called: vec![],
        nb_spans: 1,
        cleanup_status: status,
    }
}

fn span_rows(store: &mut Store, trace: &str) {
    store.spans.push(SpanRow { trace_id: trace.to_string(), span_id: format!("{}-s", trace) });
    store.annotations.push(AnnotationRow {
        trace_id: trace.to_string(),
        span_id: format!("{}-s", trace),
        value: "cs".to_string(),
    });
    store.tags.push(TagRow {
        trace_id: trace.to_string(),
        span_id: format!("{}-s", trace),
        key: "k".to_string(),
        value: "v".to_string(),
    });
}

fn member(report: &str, trace: &str) -> ReportMembership {
    ReportMembership {
        report_id: report.to_string(),
        test_id: format!("test-{}", trace),
        trace_id: trace.to_string(),
    }
}

fn sample(now: i64) -> Store {
    let mut store = Store::new();
    store.results.push(result("old-shell", 50, now, ResultCleanupStatus::Shell));
    store.results.push(result("young-shell", 30, now, ResultCleanupStatus::Shell));
    store.results.push(result("stale", 30, now, ResultCleanupStatus::WithData));
    store.results.push(result("fresh", 1, now, ResultCleanupStatus::WithData));
    store.results.push(result("pinned", 100, now, ResultCleanupStatus::Important));
    for t in ["old-shell", "young-shell", "stale", "fresh", "pinned"] {
        span_rows(&mut store, t);
    }
    store.reports.push(ReportDb { id: "old-report".to_string(), last_update: now - 80 * HOUR_US });
    store.reports.push(ReportDb { id: "new-report".to_string(), last_update: now - HOUR_US });
    store.memberships.push(member("new-report", "old-shell"));
    store.memberships.push(member("new-report", "fresh"));
    store.memberships.push(member("old-report", "fresh"));
    store
}

fn traces(store: &Store) -> Vec<String> {
    store.results.iter().map(|r| r.trace_id.clone()).collect()
}

#[test]
fn cutoffs_are_now_less_delays() {
    let now = 1_000 * HOUR_US;
    let c = CleanUp::at(now, &config());
    assert_eq!(c.shells_before, now - 48 * HOUR_US);
    assert_eq!(c.spans_before, now - 24 * HOUR_US);
    assert_eq!(c.reports_before, now - 72 * HOUR_US);
}

#[test]
fn cutoff_saturates() {
    let c = CleanUp::at(i64::MIN + 5, &config());
    assert_eq!(c.shells_before, i64::MIN);
    let neg = CleanupConfig { delay_test_results: -HOUR_MS, ..config() };
    let d = CleanUp::at(i64::MAX - 1, &neg);
    assert_eq!(d.shells_before, i64::MAX);
}

#[test]
fn one_cycle_runs_all_phases() {
    let now = 1_000 * HOUR_US;
    let mut store = sample(now);
    let counts = CleanUp::at(now, &config()).handle(&mut store);
    assert_eq!(counts.deleted, 1);
    assert_eq!(counts.cleaned, 1);
    assert_eq!(counts.reports_removed, 1);
    assert_eq!(traces(&store), vec!["young-shell", "stale", "fresh", "pinned"]);
    assert_eq!(store.results[1].cleanup_status, ResultCleanupStatus::Shell);
    assert_eq!(store.results[2].cleanup_status, ResultCleanupStatus::WithData);
    assert_eq!(store.results[3].cleanup_status, ResultCleanupStatus::Important);
    let span_traces: Vec<&str> = store.spans.iter().map(|s| s.trace_id.as_str()).collect();
    assert_eq!(span_traces, vec!["old-shell", "young-shell", "fresh", "pinned"]);
    assert_eq!(store.annotations.len(), 4);
    assert_eq!(store.tags.len(), 4);
    assert_eq!(store.reports.len(), 1);
    assert_eq!(store.reports[0].id, "new-report");
    assert_eq!(store.memberships.len(), 1);
    assert_eq!(store.memberships[0].trace_id, "fresh");
    assert_eq!(store.memberships[0].report_id, "new-report");
}

#[test]
fn second_cycle_changes_nothing() {
    let now = 1_000 * HOUR_US;
    let mut store = sample(now);
    let cycle = CleanUp::at(now, &config());
    cycle.handle(&mut store);
    let results = traces(&store);
    let spans = store.spans.len();
    let members = store.memberships.len();
    let counts = cycle.handle(&mut store);
    assert_eq!(counts.deleted, 0);
    assert_eq!(counts.cleaned, 0);
    assert_eq!(counts.reports_removed, 0);
    assert_eq!(traces(&store), results);
    assert_eq!(store.spans.len(), spans);
    assert_eq!(store.memberships.len(), members);
}

#[test]
fn demoted_result_keeps_its_row() {
    let now = 1_000 * HOUR_US;
    let mut store = Store::new();
    store.results.push(result("t", 30, now, ResultCleanupStatus::WithData));
    span_rows(&mut store, "t");
    span_rows(&mut store, "other");
    CleanUp::at(now, &config()).handle(&mut store);
    let row = store.results.iter().find(|r| r.test_id == "test-t" && r.trace_id == "t").unwrap();
    assert_eq!(row.cleanup_status, ResultCleanupStatus::Shell);
    assert_eq!(row.date, now - 30 * HOUR_US);
    assert!(store.spans.iter().all(|s| s.trace_id != "t"));
    assert!(store.annotations.iter().all(|a| a.trace_id != "t"));
    assert!(store.tags.iter().all(|t| t.trace_id != "t"));
    assert_eq!(store.spans.len(), 1);
}

#[test]
fn empty_store_cycle() {
    let mut store = Store::new();
    let counts = CleanUp::at(0, &config()).handle(&mut store);
    assert_eq!(counts.deleted, 0);
    assert_eq!(counts.cleaned, 0);
    assert_eq!(counts.reports_removed, 0);
}

#[test]
fn cleanup_codes() {
    assert_eq!(ResultCleanupStatus::WithData.as_i32(), 0);
    assert_eq!(ResultCleanupStatus::Important.as_i32(), 1);
    assert_eq!(ResultCleanupStatus::ToKeep.as_i32(), 2);
    assert_eq!(ResultCleanupStatus::Shell.as_i32(), 3);
    assert_eq!(ResultCleanupStatus::from_i32(3), ResultCleanupStatus::Shell);
    assert_eq!(ResultCleanupStatus::from_i32(2), ResultCleanupStatus::ToKeep);
    assert_eq!(ResultCleanupStatus::from_i32(9), ResultCleanupStatus::WithData);
}

#[test]
fn second_cycle_is_quiet_even_for_old_data() {
    let now = 1_000 * HOUR_US;
    let mut store = Store::new();
    store.results.push(result("ancient", 100, now, ResultCleanupStatus::WithData));
    span_rows(&mut store, "ancient");
    let cycle = CleanUp::at(now, &config());
    let first = cycle.handle(&mut store);
    assert_eq!(first.cleaned, 1);
    assert_eq!(first.deleted, 0);
    let second = cycle.handle(&mut store);
    assert_eq!(second.cleaned, 0);
    assert_eq!(second.reports_removed, 0);
    assert_eq!(second.deleted, 1);
    assert!(store.results.is_empty());
}

#[test]
fn demoted_result_keeps_memberships_of_live_reports() {
    let now = 1_000 * HOUR_US;
    let mut store = Store::new();
    store.results.push(result("t", 30, now, ResultCleanupStatus::WithData));
    store.reports.push(ReportDb { id: "live".to_string(), last_update: now });
    store.reports.push(ReportDb { id: "dead".to_string(), last_update: now - 100 * HOUR_US });
    store.memberships.push(member("live", "t"));
    store.memberships.push(member("dead", "t"));
    CleanUp::at(now, &config()).handle(&mut store);
    assert_eq!(store.memberships.len(), 1);
    assert_eq!(store.memberships[0].report_id, "live");
}
