use std::cell::Cell;

use ikrelln::cache::{PathCache, TestItemDb};

fn item(id: &str, parent: &str, name: &str) -> TestItemDb {
    TestItemDb {
        id: id.to_string(),
        parent_id: parent.to_string(),
        name: name.to_string(),
        source: 0,
    }
}

fn table() -> Vec<TestItemDb> {
    vec![
        item("s", "root", "suite"),
        item("c", "s", "class"),
        item("t", "c", "test"),
    ]
}

fn lookup(items: &[TestItemDb], id: &str) -> Option<TestItemDb> {
    items.iter().find(|it| it.id == id).map(|it| it.copy())
}

#[test]
fn loader_runs_once_per_id() {
    let items = table();
    let calls = Cell::new(0usize);
    let loader = |id: &str| {
        calls.set(calls.get() + 1);
        lookup(&items, id)
    };
    let mut cache = PathCache::new();
    let first = cache.get("c", &loader);
    let second = cache.get("c", &loader);
    let third = cache.get("c", &loader);
    assert_eq!(calls.get(), 1);
    assert_eq!(first.unwrap().name, "class");
    assert_eq!(second.unwrap().name, "class");
    assert_eq!(third.unwrap().name, "class");
}

#[test]
fn absence_is_cached_too() {
    let items = table();
    let calls = Cell::new(0usize);
    let loader = |id: &str| {
        calls.set(calls.get() + 1);
        lookup(&items, id)
    };
    let mut cache = PathCache::new();
    assert!(cache.get("nope", &loader).is_none());
    assert!(cache.get("nope", &loader).is_none());
    assert_eq!(calls.get(), 1);
    assert!(cache.contains("nope"));
}

#[test]
fn seeded_entries_need_no_loader() {
    let calls = Cell::new(0usize);
    let loader = |_id: &str| {
        calls.set(calls.get() + 1);
        None
    };
    let mut cache = PathCache::new_with(vec![
        ("s".to_string(), Some(item("s", "root", "suite"))),
        ("c".to_string(), Some(item("c", "s", "class"))),
    ]);
    assert_eq!(cache.get("s", &loader).unwrap().name, "suite");
    assert_eq!(cache.get("c", &loader).unwrap().name, "class");
    assert_eq!(calls.get(), 0);
}

#[test]
fn later_seed_entry_overrides_earlier() {
    let cache = PathCache::new_with(vec![
        ("s".to_string(), None),
        ("s".to_string(), Some(item("s", "root", "suite"))),
    ]);
    let mut cache = cache;
    let loader = |_id: &str| None;
    assert_eq!(cache.get("s", &loader).unwrap().name, "suite");
}

#[test]
fn ancestor_names_from_the_top() {
    let items = table();
    let calls = Cell::new(0usize);
    let loader = |id: &str| {
        calls.set(calls.get() + 1);
        lookup(&items, id)
    };
    let mut cache = PathCache::new();
    let path = cache.ancestor_names("c", &loader, 10);
    assert_eq!(path, vec!["suite".to_string(), "class".to_string()]);
    assert_eq!(calls.get(), 2);
    let again = cache.ancestor_names("c", &loader, 10);
    assert_eq!(again, path);
    assert_eq!(calls.get(), 2);
    assert!(cache.ancestor_names("root", &loader, 10).is_empty());
}

#[test]
fn walk_stops_at_unknown_parent() {
    let items = vec![item("c", "gone", "class")];
    let loader = |id: &str| lookup(&items, id);
    let mut cache = PathCache::new();
    assert_eq!(cache.ancestor_names("c", &loader, 10), vec!["class".to_string()]);
}

#[test]
fn cyclic_chain_is_cut() {
    let items = vec![item("a", "b", "A"), item("b", "a", "B")];
    let loader = |id: &str| lookup(&items, id);
    let mut cache = PathCache::new();
    let path = cache.ancestor_names("a", &loader, 5);
    assert_eq!(path, vec!["A", "B", "A", "B", "A"]);
}

#[test]
fn deep_chain_is_not_cut_with_enough_bound() {
    let mut items = vec![item("n0", "root", "level0")];
    for i in 1..100 {
        items.push(item(&format!("n{}", i), &format!("n{}", i - 1), &format!("level{}", i)));
    }
    let loader = |id: &str| lookup(&items, id);
    let mut cache = PathCache::new();
    let path = cache.ancestor_names("n99", &loader, items.len());
    assert_eq!(path.len(), 100);
    assert_eq!(path[0], "level0");
    assert_eq!(path[99], "level99");
    let ancestors = cache.ancestors("n99", &loader, items.len());
    assert_eq!(ancestors[0].id, "n0");
}
