use docufind::actions::{
    is_debounced, is_new_doc_file, open_file_and_search, quote_for_script, reports_progress,
    saves_batch, watch_event_change, FileChange, OpenAction, WatchKind,
};
use docufind::direct::{find_matches_fast, get_context_around_match_fast};
use docufind::index_store::{
    fuzzy_query_attempts, keep_with_matches, result_of_row, search_fts5, StoredRow,
};
use docufind::migrations::{
    check_fts5_health, get_schema_version, is_outdated, needs_rebuild, run_migrations,
    MigrationStep, CURRENT_SCHEMA_VERSION,
};
use docufind::models::{FileData, Match, SearchResult, Timestamp};
use docufind::state::{get_folder_tree, load_index, AppState, StoredFile, StoredFolder};
use docufind::text::parse_number;

fn now() -> Timestamp {
    Timestamp { secs: 42, nanos: 7 }
}

fn doc(path: &str) -> FileData {
    FileData {
        path: path.to_string(),
        name: path.rsplit('/').next().unwrap().to_string(),
        size: 1,
        last_modified: now(),
        file_type: "text".to_string(),
        content: "text".to_string(),
    }
}

// ---------------------------------------------------------------------------
// Versions
// ---------------------------------------------------------------------------

#[test]
fn the_version_of_a_store() {
    assert_eq!(get_schema_version(Some("2")), 2);
    assert_eq!(get_schema_version(Some("7")), 7);
    assert_eq!(get_schema_version(Some("4294967295")), 4294967295);
    // Default version should be 1.
    assert_eq!(get_schema_version(None), 1);
    assert_eq!(get_schema_version(Some("")), 1);
    assert_eq!(get_schema_version(Some("two")), 1);
    assert_eq!(get_schema_version(Some("4294967296")), 1);
    assert_eq!(get_schema_version(Some("-2")), 1);
    assert_eq!(get_schema_version(Some(" 2")), 1);
}

#[test]
fn numbers_agree_with_the_standard_library() {
    for text in [
        "0", "1", "+1", "0001", "4294967295", "4294967296", "99999999999", "", "+", "-", "1+",
        "12 ", "1_000", "٣", "+-1",
    ] {
        assert_eq!(parse_number(text, u32::MAX), text.parse::<u32>().ok(), "{:?}", text);
        assert_eq!(
            parse_number(text, 255),
            text.parse::<u8>().ok().map(|v| v as u32),
            "{:?}",
            text
        );
    }
}

#[test]
fn an_old_store_is_migrated_in_three_steps() {
    assert_eq!(CURRENT_SCHEMA_VERSION, 2);
    assert_eq!(
        run_migrations(1),
        vec![
            MigrationStep::Backup,
            MigrationStep::RebuildFullTextIndex,
            MigrationStep::SetVersion(2),
        ]
    );
    assert_eq!(run_migrations(0).len(), 3);
}

#[test]
fn a_current_store_is_left_alone() {
    assert!(run_migrations(2).is_empty());
    assert!(run_migrations(3).is_empty());
    assert!(is_outdated(1));
    assert!(!is_outdated(2));
}

#[test]
fn the_health_of_the_index() {
    let health = check_fts5_health(10, 10);
    assert!(health.is_healthy);
    assert_eq!(health.file_count, 10);
    assert_eq!(health.indexed_count, 10);
    assert!(!needs_rebuild(&health, 10));
    let health = check_fts5_health(10, 9);
    assert!(!health.is_healthy);
    assert!(needs_rebuild(&health, 10));
    assert!(!needs_rebuild(&health, 0));
}

// ---------------------------------------------------------------------------
// Opening and watching
// ---------------------------------------------------------------------------

#[test]
fn how_a_file_is_opened_at_a_term() {
    assert_eq!(open_file_and_search("/d/a.docx", "term"), OpenAction::InWordProcessor);
    assert_eq!(open_file_and_search("/d/a.DOC", "term"), OpenAction::InWordProcessor);
    assert_eq!(open_file_and_search("/d/a.xlsx", "term"), OpenAction::InSpreadsheet);
    assert_eq!(open_file_and_search("/d/a.xls", "term"), OpenAction::InSpreadsheet);
    assert_eq!(open_file_and_search("/d/a.pptx", "term"), OpenAction::InPresentation);
    assert_eq!(open_file_and_search("/d/a.ppt", "term"), OpenAction::InPresentation);
    assert_eq!(open_file_and_search("/d/a.txt", "term"), OpenAction::WithTermCopied);
    assert_eq!(open_file_and_search("/d/a", "term"), OpenAction::WithTermCopied);
    assert_eq!(open_file_and_search("/d/a.docx", ""), OpenAction::Open);
    assert_eq!(open_file_and_search("/d/a.docx", "  \t"), OpenAction::Open);
}

#[test]
fn quoting_for_a_script() {
    assert_eq!(quote_for_script("plain", true), "plain");
    assert_eq!(quote_for_script("it's", true), "it''s");
    assert_eq!(quote_for_script("C:\\docs\\a", true), "C:\\\\docs\\\\a");
    assert_eq!(quote_for_script("C:\\docs\\a", false), "C:\\docs\\a");
    assert_eq!(quote_for_script("'\\'", true), "''\\\\''");
    assert_eq!(quote_for_script("", true), "");
    for text in ["a'b\\c", "''", "\\\\", "no marks"] {
        assert_eq!(
            quote_for_script(text, true),
            text.replace("'", "''").replace("\\", "\\\\")
        );
        assert_eq!(quote_for_script(text, false), text.replace("'", "''"));
    }
}

#[test]
fn what_a_change_in_a_folder_means() {
    assert_eq!(
        watch_event_change("a.docx", WatchKind::Created),
        Some(FileChange::Modified)
    );
    assert_eq!(
        watch_event_change("a.TXT", WatchKind::Modified),
        Some(FileChange::Modified)
    );
    assert_eq!(
        watch_event_change("a.md", WatchKind::Removed),
        Some(FileChange::Removed)
    );
    assert_eq!(watch_event_change("a.md", WatchKind::Other), None);
    assert_eq!(watch_event_change("a.png", WatchKind::Created), None);
    assert_eq!(watch_event_change("noextension", WatchKind::Created), None);
    assert_eq!(watch_event_change("~$a.docx", WatchKind::Modified), None);
    assert_eq!(watch_event_change(".a.docx", WatchKind::Modified), None);
}

#[test]
fn a_path_is_told_once_in_half_a_second() {
    assert!(!is_debounced(None, 1000));
    assert!(is_debounced(Some(1000), 1000));
    assert!(is_debounced(Some(1000), 1499));
    assert!(!is_debounced(Some(1000), 1500));
    // The clock is not trusted to run forward.
    assert!(is_debounced(Some(1000), 900));
}

#[test]
fn old_documents_that_are_not_indexed() {
    let indexed = vec!["/d/known.doc".to_string()];
    assert!(is_new_doc_file("new.doc", "/d/new.doc", &indexed));
    assert!(is_new_doc_file("NEW.DOC", "/d/NEW.DOC", &indexed));
    assert!(!is_new_doc_file("known.doc", "/d/known.doc", &indexed));
    assert!(!is_new_doc_file("new.docx", "/d/new.docx", &indexed));
    assert!(!is_new_doc_file("~$new.doc", "/d/~$new.doc", &indexed));
    assert!(!is_new_doc_file(".new.doc", "/d/.new.doc", &indexed));
    assert!(!is_new_doc_file("doc", "/d/doc", &indexed));
}

#[test]
fn progress_and_batches() {
    assert!(reports_progress(10, 95));
    assert!(reports_progress(90, 95));
    assert!(reports_progress(95, 95));
    assert!(!reports_progress(94, 95));
    assert!(!reports_progress(1, 95));
    assert!(saves_batch(100));
    assert!(saves_batch(300));
    assert!(!saves_batch(150));
}

// ---------------------------------------------------------------------------
// The index store
// ---------------------------------------------------------------------------

#[test]
fn plain_queries_are_tried_with_a_typo_first() {
    assert_eq!(fuzzy_query_attempts("budget"), vec!["budget~1", "budget"]);
    assert_eq!(
        fuzzy_query_attempts("annual budget"),
        vec!["annual budget~1", "annual budget"]
    );
    assert_eq!(fuzzy_query_attempts(""), vec!["~1", ""]);
}

#[test]
fn queries_in_the_syntax_of_the_store_are_tried_as_they_are() {
    for query in [
        "a AND b", "a OR b", "a NOT b", "\"a b\"", "bud*", "b?dget", "name:report", "+a", "-a",
        "a +b", "a -b",
    ] {
        assert_eq!(fuzzy_query_attempts(query), vec![query], "{}", query);
    }
    // The operators count between blanks and in capitals only.
    assert_eq!(fuzzy_query_attempts("a and b").len(), 2);
    assert_eq!(fuzzy_query_attempts("AND").len(), 2);
    assert_eq!(fuzzy_query_attempts("a+b").len(), 2);
    assert_eq!(fuzzy_query_attempts("a-b").len(), 2);
}

#[test]
fn queries_outside_ascii_are_tried_as_they_are() {
    assert_eq!(fuzzy_query_attempts("تقرير"), vec!["تقرير"]);
    assert_eq!(fuzzy_query_attempts("café"), vec!["café"]);
}

fn result(path: &str, matches: usize) -> SearchResult {
    SearchResult {
        file: doc(path),
        matches: (0..matches)
            .map(|i| Match { text: "t".to_string(), index: i, context: "c".to_string() })
            .collect(),
        score_tenths: 10,
    }
}

#[test]
fn answers_without_a_match_are_left_out() {
    let kept = keep_with_matches(vec![
        result("/a", 1),
        result("/b", 0),
        result("/c", 3),
    ]);
    let paths: Vec<&str> = kept.iter().map(|r| r.file.path.as_str()).collect();
    assert_eq!(paths, vec!["/a", "/c"]);
    let many: Vec<SearchResult> = (0..150).map(|i| result(&format!("/{}", i), 1)).collect();
    let kept = keep_with_matches(many);
    assert_eq!(kept.len(), 100);
    assert_eq!(kept[99].file.path, "/99");
}

#[test]
fn a_row_of_the_store_becomes_a_result() {
    let row = StoredRow {
        path: "/d/a.docx".to_string(),
        name: "a.docx".to_string(),
        file_type: "word".to_string(),
    };
    let r = result_of_row(row, "annual report", now());
    assert_eq!(r.file.path, "/d/a.docx");
    assert_eq!(r.file.name, "a.docx");
    assert_eq!(r.file.file_type, "word");
    assert_eq!(r.file.size, 0);
    assert_eq!(r.file.content, "");
    assert_eq!(r.file.last_modified, now());
    assert_eq!(r.matches.len(), 1);
    assert_eq!(r.matches[0].text, "annual report");
    assert_eq!(r.matches[0].index, 0);
    assert_eq!(r.matches[0].context, "Match found for 'annual report'");
    assert_eq!(r.score_tenths, 10);
}

#[test]
fn rows_in_excluded_folders_are_left_out() {
    let rows = |paths: &[&str]| -> Vec<StoredRow> {
        paths
            .iter()
            .map(|p| StoredRow {
                path: p.to_string(),
                name: "n".to_string(),
                file_type: "text".to_string(),
            })
            .collect()
    };
    let excluded = vec!["/d/private".to_string()];
    let results = search_fts5(
        rows(&["/d/a", "/d/private/b", "/d/private2/c", "/d/private"]),
        "q",
        &excluded,
        now(),
    );
    let paths: Vec<&str> = results.iter().map(|r| r.file.path.as_str()).collect();
    assert_eq!(paths, vec!["/d/a", "/d/private2/c"]);
    assert_eq!(search_fts5(rows(&["/x"]), "q", &Vec::new(), now()).len(), 1);
}

// ---------------------------------------------------------------------------
// Matches in a text that is searched as it is
// ---------------------------------------------------------------------------

#[test]
fn fast_matches_take_the_text_as_it_is() {
    let matches = find_matches_fast("the budget plan", "plan.txt", "Plan.txt", "budget");
    assert_eq!(matches.len(), 1);
    assert_eq!(matches[0].index, 4);
    assert_eq!(matches[0].context, "the budget plan");
    // Nothing is lowered here.
    assert!(find_matches_fast("The BUDGET plan", "plan.txt", "Plan.txt", "budget").is_empty());
    let matches = find_matches_fast("nothing", "budget.txt", "Budget.TXT", "budget");
    assert_eq!(matches.len(), 1);
    assert_eq!(matches[0].context, "Filename: Budget.TXT");
}

#[test]
fn fast_context_is_the_context() {
    assert_eq!(
        get_context_around_match_fast("0123456789", 5, 1, 2),
        "34567"
    );
    assert_eq!(get_context_around_match_fast("éa", 2, 1, 1), "éa");
}

// ---------------------------------------------------------------------------
// Loading
// ---------------------------------------------------------------------------

fn folder(path: &str, on_disk: bool) -> StoredFolder {
    StoredFolder { path: path.to_string(), on_disk }
}

fn file(path: &str, on_disk: bool) -> StoredFile {
    StoredFile { file: doc(path), on_disk }
}

#[test]
fn loading_leaves_out_what_is_gone() {
    let mut state = AppState::default();
    state.index = vec![doc("/old/x")];
    state.set_data_dir("/data".to_string());
    let summary = load_index(
        &mut state,
        vec![folder("/docs", true), folder("/gone", false), folder("/docs", true)],
        vec!["/docs/private".to_string(), "/docs/private".to_string()],
        vec![
            file("/docs/a.txt", true),
            file("/docs/deleted.txt", false),
            file("/gone/b.txt", true),
            file("/docs/sub/c.txt", true),
        ],
    )
    .unwrap();
    assert_eq!(summary.file_count, 2);
    assert_eq!(summary.folder_count, 1);
    assert_eq!(state.watched_folders, vec!["/docs"]);
    assert_eq!(state.excluded_folders, vec!["/docs/private"]);
    let paths: Vec<&str> = state.index.iter().map(|f| f.path.as_str()).collect();
    assert_eq!(paths, vec!["/docs/a.txt", "/docs/sub/c.txt"]);
    assert_eq!(state.get_data_dir(), Some("/data".to_string()));
}

#[test]
fn loading_without_a_folder_changes_nothing() {
    let mut state = AppState::default();
    state.index = vec![doc("/old/x")];
    state.watched_folders = vec!["/old".to_string()];
    let loaded = load_index(
        &mut state,
        vec![folder("/gone", false)],
        vec!["/e".to_string()],
        vec![file("/gone/a.txt", true)],
    );
    assert!(loaded.is_none());
    assert_eq!(state.index.len(), 1);
    assert_eq!(state.watched_folders, vec!["/old"]);
    assert!(state.excluded_folders.is_empty());
    assert!(load_index(&mut state, Vec::new(), Vec::new(), Vec::new()).is_none());
}

#[test]
fn the_folder_tree_of_the_state() {
    let mut state = AppState::default();
    state.index = vec![doc("/docs/a.txt"), doc("/docs/x/b.txt"), doc("/other/c.txt")];
    state.watched_folders = vec!["/docs".to_string(), "/other".to_string(), "/third".to_string()];
    state.excluded_folders = vec!["/docs/x".to_string()];
    // Nothing is said of the third folder: it counts as gone.
    let trees = get_folder_tree(&state, &vec![true, false]);
    assert_eq!(trees.len(), 1);
    assert_eq!(trees[0].path, "/docs");
    assert_eq!(trees[0].file_count, 2);
    assert_eq!(trees[0].children.len(), 1);
    assert!(trees[0].children[0].is_excluded);
    let trees = get_folder_tree(&state, &vec![true, true, true]);
    assert_eq!(trees.len(), 3);
    assert_eq!(trees[2].file_count, 0);
}

fn stored_version(conn: &rusqlite::Connection) -> Option<String> {
    conn.query_row(
        "SELECT value FROM metadata WHERE key = 'schema_version'",
        [],
        |row| row.get::<_, String>(0),
    )
    .ok()
}

#[test]
fn test_schema_version() {
    let conn = rusqlite::Connection::open_in_memory().unwrap();
    conn.execute(
        "CREATE TABLE metadata (key TEXT PRIMARY KEY, value TEXT NOT NULL)",
        [],
    )
    .unwrap();

    // Default version should be 1
    assert_eq!(get_schema_version(stored_version(&conn).as_deref()), 1);

    // Set and get version
    conn.execute(
        "INSERT OR REPLACE INTO metadata (key, value) VALUES ('schema_version', ?1)",
        [2u32.to_string()],
    )
    .unwrap();
    assert_eq!(get_schema_version(stored_version(&conn).as_deref()), 2);
}
