use ikrelln::cache::TestItemDb;
use ikrelln::items::{name_le_exec, GetTestItems, TestItemQuery, TEST_ITEM_QUERY_LIMIT};
use ikrelln::query::{GetEnvironments, TestResultQuery, TestResultsQueryParams};
use ikrelln::store::{ResultCleanupStatus, Store, TestResultDb};

fn item(id: &str, parent: &str, name: &str) -> TestItemDb {
    TestItemDb { id: id.to_string(), parent_id: parent.to_string(), name: name.to_string(), source: 0 }
}

fn row(test: &str, trace: &str, date: i64, env: Option<&str>) -> TestResultDb {
    TestResultDb {
        test_id: test.to_string(),
        trace_id: trace.to_string(),
        date,
        status: 0,
        duration: 1,
        environment: env.map(|e| e.to_string()),
        components_called: vec![],
        nb_spans: 1,
        cleanup_status: ResultCleanupStatus::WithData,
    }
}

fn store() -> Store {
    let mut s = Store::new();
    s.items.push(item("s2", "root", "zeta"));
    s.items.push(item("s1", "root", "alpha"));
    s.items.push(item("c2", "s1", "beta"));
    s.items.push(item("c1", "s1", "Beta"));
    s.items.push(item("t", "c2", "test"));
    for i in 0..7 {
        s.results.push(row("t", &format!("tr{}", i), i, if i % 2 == 0 { Some("prod") } else { None }));
    }
    s.results.push(row("t", "tr7", 7, Some("dev")));
    s
}

fn query(id: Option<&str>, parent: Option<&str>, path: bool, children: bool, traces: bool) -> GetTestItems {
    GetTestItems(TestItemQuery {
        id: id.map(|s| s.to_string()),
        parent_id: parent.map(|s| s.to_string()),
        with_full_path: path,
        with_children: children,
        with_traces: traces,
    })
}

#[test]
fn top_level_items_by_name() {
    let found = store().get_test_items(&query(None, Some("root"), false, false, false));
    let names: Vec<&str> = found.iter().map(|d| d.name.as_str()).collect();
    assert_eq!(names, vec!["alpha", "zeta"]);
    assert!(found[0].path.is_empty());
    assert!(found[0].children.is_empty());
    assert!(found[0].last_results.is_empty());
}

#[test]
fn all_items_in_name_order() {
    let found = store().get_test_items(&query(None, None, false, false, false));
    let names: Vec<&str> = found.iter().map(|d| d.name.as_str()).collect();
    assert_eq!(names, vec!["Beta", "alpha", "beta", "test", "zeta"]);
}

#[test]
fn children_in_name_order() {
    let found = store().get_test_items(&query(Some("s1"), None, false, true, false));
    assert_eq!(found.len(), 1);
    let kids: Vec<&str> = found[0].children.iter().map(|c| c.name.as_str()).collect();
    assert_eq!(kids, vec!["Beta", "beta"]);
    assert_eq!(found[0].children[0].id, "c1");
    assert_eq!(TEST_ITEM_QUERY_LIMIT, 200);
}

#[test]
fn full_path_and_last_results() {
    let found = store().get_test_items(&query(Some("t"), None, true, false, true));
    assert_eq!(found.len(), 1);
    let d = &found[0];
    assert_eq!(d.test_id, "t");
    let path: Vec<(&str, &str)> = d.path.iter().map(|p| (p.id.as_str(), p.name.as_str())).collect();
    assert_eq!(path, vec![("s1", "alpha"), ("c2", "beta")]);
    let traces: Vec<&str> = d.last_results.iter().map(|r| r.trace_id.as_str()).collect();
    assert_eq!(traces, vec!["tr7", "tr6", "tr5", "tr4", "tr3"]);
    assert_eq!(d.last_results[0].path, vec!["alpha".to_string(), "beta".to_string()]);
}

#[test]
fn name_order_is_by_character() {
    assert!(name_le_exec("a", "b"));
    assert!(name_le_exec("ab", "abc"));
    assert!(!name_le_exec("abc", "ab"));
    assert!(name_le_exec("B", "a"));
    assert!(name_le_exec("", ""));
}

#[test]
fn distinct_environments() {
    let envs = store().get_environments(&GetEnvironments);
    assert_eq!(envs, vec!["prod".to_string(), "dev".to_string()]);
    assert!(Store::new().get_environments(&GetEnvironments).is_empty());
}

fn params() -> TestResultsQueryParams {
    TestResultsQueryParams {
        trace_id: None,
        status: None,
        test_id: None,
        environment: None,
        min_duration: None,
        max_duration: None,
        ts: None,
        lookback: None,
        limit: None,
    }
}

#[test]
fn params_become_a_query() {
    let q = TestResultQuery::from_params_at(
        TestResultsQueryParams {
            trace_id: Some("t".to_string()),
            status: Some("FAILURE".to_string()),
            ts: Some(1_500),
            lookback: Some(2),
            limit: Some(500),
            ..params()
        },
        99,
    );
    assert_eq!(q.trace_id, Some("t".to_string()));
    assert_eq!(q.status, Some(1));
    assert_eq!(q.ts, 1_500_000);
    assert_eq!(q.lookback, Some(2_000));
    assert_eq!(q.limit, 100);
    let d = TestResultQuery::from_params_at(params(), 99);
    assert_eq!(d.ts, 99);
    assert_eq!(d.limit, 100);
    assert_eq!(d.status, None);
    let s = TestResultQuery::from_params_at(
        TestResultsQueryParams { status: Some("skipped".to_string()), limit: Some(7), ..params() },
        0,
    );
    assert_eq!(s.status, Some(2));
    assert_eq!(s.limit, 7);
    let bad = TestResultQuery::from_params_at(
        TestResultsQueryParams { status: Some("any".to_string()), ..params() },
        0,
    );
    assert_eq!(bad.status, None);
    let big = TestResultQuery::from_params_at(TestResultsQueryParams { ts: Some(i64::MAX), ..params() }, 0);
    assert_eq!(big.ts, i64::MAX);
    let now = TestResultQuery::from_params(params());
    assert!(now.ts > 0);
}
