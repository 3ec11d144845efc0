use docufind::history::{SearchHistory, MAX_HISTORY_ENTRIES};
use docufind::models::Timestamp;

fn at(secs: i64) -> Timestamp {
    Timestamp { secs, nanos: 0 }
}

#[test]
fn test_add_and_get() {
    let mut history = SearchHistory::new();
    history.add("test query".to_string(), 10, at(1));

    let entries = history.get_all();
    assert_eq!(entries.len(), 1);
    assert_eq!(entries[0].query, "test query");
}

#[test]
fn test_dedup() {
    let mut history = SearchHistory::new();
    history.add("test".to_string(), 10, at(1));
    history.add("other".to_string(), 5, at(2));
    history.add("test".to_string(), 15, at(3)); // Duplicate

    let entries = history.get_all();
    assert_eq!(entries.len(), 2);
    assert_eq!(entries[0].query, "test"); // Most recent at front
    assert_eq!(entries[0].result_count, 15);
}

#[test]
fn test_max_entries() {
    let mut history = SearchHistory::new();
    for i in 0..60 {
        history.add(format!("query{}", i), i, at(i as i64));
    }

    assert_eq!(history.get_all().len(), MAX_HISTORY_ENTRIES);
}

#[test]
fn capacity_is_fifty() {
    assert_eq!(MAX_HISTORY_ENTRIES, 50);
}

#[test]
fn the_oldest_entries_fall_off() {
    let mut history = SearchHistory::new();
    for i in 0..60 {
        history.add(format!("query{}", i), i, at(i as i64));
    }
    let entries = history.get_all();
    assert_eq!(entries[0].query, "query59");
    assert_eq!(entries[49].query, "query10");
}

#[test]
fn adding_twice_keeps_the_later_count_and_time() {
    let mut history = SearchHistory::new();
    history.add("budget".to_string(), 3, at(100));
    history.add("budget".to_string(), 8, Timestamp { secs: 200, nanos: 5 });
    let entries = history.get_all();
    assert_eq!(entries.len(), 1);
    assert_eq!(entries[0].query, "budget");
    assert_eq!(entries[0].result_count, 8);
    assert_eq!(entries[0].timestamp, Timestamp { secs: 200, nanos: 5 });
}

#[test]
fn the_same_query_in_another_case_replaces_the_entry() {
    let mut history = SearchHistory::new();
    history.add("Budget".to_string(), 3, at(1));
    history.add("other".to_string(), 1, at(2));
    history.add("BUDGET".to_string(), 4, at(3));
    let entries = history.get_all();
    assert_eq!(entries.len(), 2);
    assert_eq!(entries[0].query, "BUDGET");
    assert_eq!(entries[0].result_count, 4);
    assert_eq!(entries[1].query, "other");
}

#[test]
fn blank_queries_are_not_recorded() {
    let mut history = SearchHistory::new();
    history.add(String::new(), 1, at(1));
    history.add("   ".to_string(), 1, at(2));
    history.add("\t\n".to_string(), 1, at(3));
    assert!(history.get_all().is_empty());
    history.add("real".to_string(), 1, at(4));
    history.add("  ".to_string(), 9, at(5));
    let entries = history.get_all();
    assert_eq!(entries.len(), 1);
    assert_eq!(entries[0].query, "real");
}

#[test]
fn a_query_is_kept_as_written() {
    let mut history = SearchHistory::new();
    history.add("  Padded Query ".to_string(), 2, at(1));
    assert_eq!(history.get_all()[0].query, "  Padded Query ");
}

#[test]
fn recent_gives_the_newest_first() {
    let mut history = SearchHistory::new();
    for (i, q) in ["a", "b", "c", "d"].iter().enumerate() {
        history.add(q.to_string(), i, at(i as i64));
    }
    let recent: Vec<String> = history.get_recent(2).into_iter().map(|e| e.query).collect();
    assert_eq!(recent, vec!["d", "c"]);
    let all: Vec<String> = history
        .get_recent(10)
        .into_iter()
        .map(|e| e.query)
        .collect();
    assert_eq!(all, vec!["d", "c", "b", "a"]);
    assert!(history.get_recent(0).is_empty());
}

#[test]
fn remove_ignores_case() {
    let mut history = SearchHistory::new();
    history.add("Alpha".to_string(), 1, at(1));
    history.add("beta".to_string(), 2, at(2));
    history.remove("ALPHA");
    let left: Vec<String> = history.get_all().into_iter().map(|e| e.query).collect();
    assert_eq!(left, vec!["beta"]);
    history.remove("gamma");
    assert_eq!(history.get_all().len(), 1);
}

#[test]
fn clear_forgets_everything() {
    let mut history = SearchHistory::new();
    history.add("a".to_string(), 1, at(1));
    history.add("b".to_string(), 1, at(2));
    history.clear();
    assert!(history.get_all().is_empty());
}

#[test]
fn search_finds_by_beginning() {
    let mut history = SearchHistory::new();
    history.add("Annual report".to_string(), 1, at(1));
    history.add("budget".to_string(), 1, at(2));
    history.add("annex".to_string(), 1, at(3));
    let found: Vec<String> = history.search("AN").into_iter().map(|e| e.query).collect();
    assert_eq!(found, vec!["annex", "Annual report"]);
    assert_eq!(history.search("").len(), 3);
    assert!(history.search("report").is_empty());
}

#[test]
fn default_is_empty() {
    let history = SearchHistory::default();
    assert!(history.get_all().is_empty());
}
