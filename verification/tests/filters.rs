use docufind::filters::{apply_filters, result_passes};
use docufind::models::{FileData, Match, SearchFilters, SearchResult, Timestamp};

fn make_result(file_type: &str, size: u64) -> SearchResult {
    SearchResult {
        file: FileData {
            path: "/test/file.docx".to_string(),
            name: "file.docx".to_string(),
            size,
            last_modified: Timestamp { secs: 1_700_000_000, nanos: 0 },
            file_type: file_type.to_string(),
            content: "test content".to_string(),
        },
        matches: vec![Match {
            text: "test".to_string(),
            index: 0,
            context: "test content".to_string(),
        }],
        score_tenths: 10,
    }
}

fn result_at(path: &str, secs: i64, nanos: u32) -> SearchResult {
    let mut r = make_result("word", 100);
    r.file.path = path.to_string();
    r.file.last_modified = Timestamp { secs, nanos };
    r
}

#[test]
fn test_filter_by_type() {
    let results = vec![
        make_result("word", 100),
        make_result("powerpoint", 200),
        make_result("word", 300),
    ];

    let filters = SearchFilters {
        file_types: Some(vec!["word".to_string()]),
        ..Default::default()
    };

    let filtered = apply_filters(results, &filters);
    assert_eq!(filtered.len(), 2);
}

#[test]
fn test_filter_by_size() {
    let results = vec![
        make_result("word", 100),
        make_result("word", 500),
        make_result("word", 1000),
    ];

    let filters = SearchFilters {
        min_size: Some(200),
        max_size: Some(800),
        ..Default::default()
    };

    let filtered = apply_filters(results, &filters);
    assert_eq!(filtered.len(), 1);
    assert_eq!(filtered[0].file.size, 500);
}

#[test]
fn no_filter_keeps_everything_in_order() {
    let results = vec![
        make_result("word", 3),
        make_result("excel", 1),
        make_result("text", 2),
    ];
    let filtered = apply_filters(results, &SearchFilters::default());
    let sizes: Vec<u64> = filtered.iter().map(|r| r.file.size).collect();
    assert_eq!(sizes, vec![3, 1, 2]);
}

#[test]
fn an_empty_list_of_types_asks_for_none() {
    let results = vec![make_result("word", 1), make_result("excel", 2)];
    let filters = SearchFilters {
        file_types: Some(Vec::new()),
        ..Default::default()
    };
    assert_eq!(apply_filters(results, &filters).len(), 2);
}

#[test]
fn several_types_pass() {
    let results = vec![
        make_result("word", 1),
        make_result("excel", 2),
        make_result("text", 3),
    ];
    let filters = SearchFilters {
        file_types: Some(vec!["text".to_string(), "word".to_string()]),
        ..Default::default()
    };
    let sizes: Vec<u64> = apply_filters(results, &filters)
        .iter()
        .map(|r| r.file.size)
        .collect();
    assert_eq!(sizes, vec![1, 3]);
}

#[test]
fn size_bounds_are_inclusive() {
    let filters = SearchFilters {
        min_size: Some(200),
        max_size: Some(800),
        ..Default::default()
    };
    assert!(result_passes(&make_result("word", 200), &filters));
    assert!(result_passes(&make_result("word", 800), &filters));
    assert!(!result_passes(&make_result("word", 199), &filters));
    assert!(!result_passes(&make_result("word", 801), &filters));
}

#[test]
fn date_bounds_are_inclusive() {
    let filters = SearchFilters {
        date_from: Some(Timestamp { secs: 100, nanos: 500 }),
        date_to: Some(Timestamp { secs: 200, nanos: 0 }),
        ..Default::default()
    };
    assert!(result_passes(&result_at("/a", 100, 500), &filters));
    assert!(!result_passes(&result_at("/a", 100, 499), &filters));
    assert!(!result_passes(&result_at("/a", 99, 999_999_999), &filters));
    assert!(result_passes(&result_at("/a", 150, 0), &filters));
    assert!(result_passes(&result_at("/a", 200, 0), &filters));
    assert!(!result_passes(&result_at("/a", 200, 1), &filters));
}

#[test]
fn folder_path_is_a_beginning_of_the_path() {
    let filters = SearchFilters {
        folder_path: Some("/docs/work".to_string()),
        ..Default::default()
    };
    assert!(result_passes(&result_at("/docs/work/a.txt", 1, 0), &filters));
    assert!(result_passes(&result_at("/docs/workshop/a.txt", 1, 0), &filters));
    assert!(!result_passes(&result_at("/docs/home/a.txt", 1, 0), &filters));
    assert!(!result_passes(&result_at("/docs", 1, 0), &filters));
}

#[test]
fn filters_are_joined_by_and() {
    let filters = SearchFilters {
        file_types: Some(vec!["word".to_string()]),
        min_size: Some(50),
        folder_path: Some("/keep".to_string()),
        ..Default::default()
    };
    let mut good = make_result("word", 60);
    good.file.path = "/keep/a.docx".to_string();
    let mut wrong_type = make_result("excel", 60);
    wrong_type.file.path = "/keep/b.xlsx".to_string();
    let mut too_small = make_result("word", 10);
    too_small.file.path = "/keep/c.docx".to_string();
    let mut elsewhere = make_result("word", 60);
    elsewhere.file.path = "/other/d.docx".to_string();
    let filtered = apply_filters(vec![wrong_type, good, too_small, elsewhere], &filters);
    assert_eq!(filtered.len(), 1);
    assert_eq!(filtered[0].file.path, "/keep/a.docx");
}

#[test]
fn pagination_fields_do_not_filter() {
    let filters = SearchFilters {
        max_results: Some(1),
        offset: Some(5),
        file_path: Some("/nowhere".to_string()),
        ..Default::default()
    };
    let results = vec![make_result("word", 1), make_result("word", 2)];
    assert_eq!(apply_filters(results, &filters).len(), 2);
}
