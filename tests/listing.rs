use ikrelln::cache::TestItemDb;
use ikrelln::extract::TestStatus;
use ikrelln::query::{GetTestResults, TestResultQuery, TEST_RESULT_QUERY_LIMIT};
use ikrelln::store::{ResultCleanupStatus, Store, TestResultDb};

fn row(test: &str, trace: &str, date: i64, status: i32, duration: i64, env: Option<&str>) -> TestResultDb {
    TestResultDb {
        test_id: test.to_string(),
        trace_id: trace.to_string(),
        date,
        status,
        duration,
        environment: env.map(|e| e.to_string()),
        components_called: vec!["db".to_string()],
        nb_spans: 2,
        cleanup_status: ResultCleanupStatus::WithData,
    }
}

fn item(id: &str, parent: &str, name: &str) -> TestItemDb {
    TestItemDb { id: id.to_string(), parent_id: parent.to_string(), name: name.to_string(), source: 0 }
}

fn store() -> Store {
    let mut s = Store::new();
    s.items.push(item("s", "root", "suite"));
    s.items.push(item("c", "s", "class"));
    s.items.push(item("t", "c", "test"));
    s.results.push(row("t", "t1", 10, 0, 5, Some("prod")));
    s.results.push(row("t", "t2", 30, 1, 50, None));
    s.results.push(row("t", "t3", 20, 2, 500, Some("dev")));
    s.results.push(row("gone", "t4", 25, 9, 5, None));
    s
}

fn traces(q: TestResultQuery) -> Vec<String> {
    store().get_test_results(&GetTestResults(q)).into_iter().map(|t| t.trace_id).collect()
}

#[test]
fn newest_first() {
    assert_eq!(traces(TestResultQuery::up_to(100)), vec!["t2", "t4", "t3", "t1"]);
}

#[test]
fn upper_bound_and_lookback() {
    assert_eq!(traces(TestResultQuery::up_to(20)), vec!["t3", "t1"]);
    let mut q = TestResultQuery::up_to(30);
    q.lookback = Some(10);
    assert_eq!(traces(q), vec!["t2", "t4", "t3"]);
}

#[test]
fn filters_combine() {
    let mut q = TestResultQuery::up_to(100);
    q.status = Some(1);
    assert_eq!(traces(q), vec!["t2"]);
    let mut q = TestResultQuery::up_to(100);
    q.environment = Some("dev".to_string());
    assert_eq!(traces(q), vec!["t3"]);
    let mut q = TestResultQuery::up_to(100);
    q.min_duration = Some(10);
    q.max_duration = Some(100);
    assert_eq!(traces(q), vec!["t2"]);
    let mut q = TestResultQuery::up_to(100);
    q.test_id = Some("gone".to_string());
    assert_eq!(traces(q), vec!["t4"]);
}

#[test]
fn limit_is_clamped() {
    let mut q = TestResultQuery::up_to(100);
    q.limit = 2;
    assert_eq!(traces(q), vec!["t2", "t4"]);
    let mut q = TestResultQuery::up_to(100);
    q.limit = 0;
    assert!(traces(q).is_empty());
    let mut q = TestResultQuery::up_to(100);
    q.limit = 10_000;
    assert_eq!(q.effective_limit(), 100);
    assert_eq!(TEST_RESULT_QUERY_LIMIT, 100);
    let d = TestResultQuery::default();
    assert_eq!(d.limit, 100);
    assert!(d.trace_id.is_none());
}

#[test]
fn listing_names_and_paths() {
    let found = store().get_test_results(&GetTestResults(TestResultQuery::up_to(100)));
    let t2 = &found[0];
    assert_eq!(t2.name, "test");
    assert_eq!(t2.path, vec!["suite".to_string(), "class".to_string()]);
    assert_eq!(t2.status, TestStatus::Failure);
    assert_eq!(t2.components_called, vec!["db".to_string()]);
    assert_eq!(t2.nb_spans, 2);
    let t4 = &found[1];
    assert_eq!(t4.name, "missing name");
    assert!(t4.path.is_empty());
    assert_eq!(t4.status, TestStatus::Failure);
    assert_eq!(found[2].status, TestStatus::Skipped);
    assert_eq!(found[3].environment, Some("prod".to_string()));
}
