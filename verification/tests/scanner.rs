use docufind::extensions::{
    file_extension, get_file_type, is_hidden_or_lock_file, is_supported_extension,
};
use docufind::models::{FileData, Timestamp};
use docufind::scanner::{
    build_document, is_candidate_file, merge_documents, needs_extraction, plan_scan, scan_folder,
    ExtractedFile, ScannedFile,
};
use docufind::state::AppState;

fn scanned(path: &str, size: u64, secs: i64) -> ScannedFile {
    ScannedFile {
        path: path.to_string(),
        name: path.rsplit('/').next().unwrap().to_string(),
        size,
        modified: Timestamp { secs, nanos: 123 },
    }
}

fn read(path: &str, size: u64, secs: i64, content: Option<&str>) -> ExtractedFile {
    ExtractedFile {
        file: scanned(path, size, secs),
        content: content.map(|c| c.to_string()),
    }
}

fn paths(files: &[FileData]) -> Vec<&str> {
    files.iter().map(|f| f.path.as_str()).collect()
}

#[test]
fn extensions_and_kinds() {
    assert_eq!(get_file_type("doc"), Some("word"));
    assert_eq!(get_file_type("docx"), Some("word"));
    assert_eq!(get_file_type("pptx"), Some("powerpoint"));
    assert_eq!(get_file_type("xlsx"), Some("excel"));
    assert_eq!(get_file_type("txt"), Some("text"));
    assert_eq!(get_file_type("md"), Some("text"));
    assert_eq!(get_file_type("DOCX"), Some("word"));
    assert_eq!(get_file_type("Md"), Some("text"));
    assert_eq!(get_file_type("pdf"), None);
    assert_eq!(get_file_type(""), None);
    assert_eq!(get_file_type("docxx"), None);
    assert_eq!(get_file_type(".txt"), None);
}

#[test]
fn supported_extensions() {
    for ext in ["doc", "docx", "pptx", "xlsx", "txt", "md", "TXT", "Docx"] {
        assert!(is_supported_extension(ext), "{}", ext);
    }
    for ext in ["pdf", "xls", "ppt", "", "tx", "txt "] {
        assert!(!is_supported_extension(ext), "{}", ext);
    }
}

#[test]
fn extension_of_a_name() {
    assert_eq!(file_extension("report.docx"), Some("docx".to_string()));
    assert_eq!(file_extension("archive.tar.gz"), Some("gz".to_string()));
    assert_eq!(file_extension("trailing."), Some(String::new()));
    assert_eq!(file_extension("noextension"), None);
    assert_eq!(file_extension(".hidden"), None);
    assert_eq!(file_extension(".hidden.txt"), Some("txt".to_string()));
    assert_eq!(file_extension(""), None);
}

#[test]
fn hidden_and_lock_files_are_passed_over() {
    assert!(is_hidden_or_lock_file(".hidden.docx"));
    assert!(is_hidden_or_lock_file("~$report.docx"));
    assert!(is_hidden_or_lock_file("."));
    assert!(!is_hidden_or_lock_file("~report.docx"));
    assert!(!is_hidden_or_lock_file("$report.docx"));
    assert!(!is_hidden_or_lock_file("report.docx"));
    assert!(!is_hidden_or_lock_file(""));
}

#[test]
fn candidates_of_a_walk() {
    assert!(is_candidate_file("report.docx"));
    assert!(is_candidate_file("NOTES.TXT"));
    assert!(is_candidate_file("a.b.md"));
    assert!(!is_candidate_file("~$report.docx"));
    assert!(!is_candidate_file(".notes.txt"));
    assert!(!is_candidate_file("picture.png"));
    assert!(!is_candidate_file("docx"));
    assert!(!is_candidate_file(""));
}

fn table() -> Vec<FileData> {
    vec![FileData {
        path: "/docs/a.txt".to_string(),
        name: "a.txt".to_string(),
        size: 10,
        last_modified: Timestamp { secs: 1000, nanos: 999 },
        file_type: "text".to_string(),
        content: "old text".to_string(),
    }]
}

#[test]
fn an_unchanged_file_is_not_read_again() {
    assert!(!needs_extraction(&table(), &scanned("/docs/a.txt", 10, 1000), false));
}

#[test]
fn the_time_is_compared_by_the_second() {
    let mut file = scanned("/docs/a.txt", 10, 1000);
    file.modified.nanos = 1;
    assert!(!needs_extraction(&table(), &file, false));
}

#[test]
fn a_changed_or_new_file_is_read() {
    assert!(needs_extraction(&table(), &scanned("/docs/a.txt", 11, 1000), false));
    assert!(needs_extraction(&table(), &scanned("/docs/a.txt", 10, 1001), false));
    assert!(needs_extraction(&table(), &scanned("/docs/b.txt", 10, 1000), false));
    assert!(needs_extraction(&Vec::new(), &scanned("/docs/a.txt", 10, 1000), false));
}

#[test]
fn everything_is_read_when_forced() {
    assert!(needs_extraction(&table(), &scanned("/docs/a.txt", 10, 1000), true));
}

#[test]
fn empty_files_and_unknown_kinds_are_never_read() {
    assert!(!needs_extraction(&table(), &scanned("/docs/new.txt", 0, 5), false));
    assert!(!needs_extraction(&table(), &scanned("/docs/new.txt", 0, 5), true));
    assert!(!needs_extraction(&table(), &scanned("/docs/new.png", 9, 5), true));
    assert!(!needs_extraction(&table(), &scanned("/docs/new", 9, 5), true));
}

#[test]
fn the_plan_keeps_the_order_of_the_walk() {
    let files = vec![
        scanned("/docs/c.md", 5, 1),
        scanned("/docs/a.txt", 10, 1000),
        scanned("/docs/b.docx", 7, 2),
        scanned("/docs/empty.txt", 0, 3),
    ];
    let plan = plan_scan(&table(), files, false);
    let planned: Vec<&str> = plan.iter().map(|f| f.path.as_str()).collect();
    assert_eq!(planned, vec!["/docs/c.md", "/docs/b.docx"]);
}

#[test]
fn a_file_becomes_a_document() {
    let doc = build_document(read("/docs/Report.DOCX", 42, 77, Some("the text"))).unwrap();
    assert_eq!(doc.path, "/docs/Report.DOCX");
    assert_eq!(doc.name, "Report.DOCX");
    assert_eq!(doc.size, 42);
    assert_eq!(doc.last_modified, Timestamp { secs: 77, nanos: 123 });
    assert_eq!(doc.file_type, "word");
    assert_eq!(doc.content, "the text");
}

#[test]
fn a_file_without_text_becomes_no_document() {
    assert!(build_document(read("/docs/a.txt", 42, 1, None)).is_none());
    assert!(build_document(read("/docs/a.txt", 42, 1, Some(""))).is_none());
    assert!(build_document(read("/docs/a.txt", 0, 1, Some("text"))).is_none());
    assert!(build_document(read("/docs/a.png", 42, 1, Some("text"))).is_none());
    // Text of blanks is text.
    assert!(build_document(read("/docs/a.txt", 42, 1, Some(" "))).is_some());
}

#[test]
fn merging_replaces_by_path_and_appends() {
    let old = vec![
        FileData { path: "/a".to_string(), content: "old a".to_string(), ..table().remove(0) },
        FileData { path: "/b".to_string(), content: "old b".to_string(), ..table().remove(0) },
        FileData { path: "/c".to_string(), content: "old c".to_string(), ..table().remove(0) },
    ];
    let fresh = vec![
        FileData { path: "/d".to_string(), content: "new d".to_string(), ..table().remove(0) },
        FileData { path: "/b".to_string(), content: "new b".to_string(), ..table().remove(0) },
    ];
    let merged = merge_documents(old, fresh);
    assert_eq!(paths(&merged), vec!["/a", "/c", "/d", "/b"]);
    assert_eq!(merged[3].content, "new b");
}

#[test]
fn merging_nothing_keeps_the_table() {
    let merged = merge_documents(table(), Vec::new());
    assert_eq!(paths(&merged), vec!["/docs/a.txt"]);
    assert_eq!(merged[0].content, "old text");
}

#[test]
fn scenario_scan_then_rescan() {
    let mut state = AppState::default();
    let walk = || {
        vec![
            scanned("/docs/a.txt", 10, 100),
            scanned("/docs/b.docx", 20, 200),
            scanned("/docs/sub/c.md", 30, 300),
        ]
    };

    // The first scan reads all three.
    let plan = plan_scan(&state.index, walk(), false);
    assert_eq!(plan.len(), 3);
    let extracted: Vec<ExtractedFile> = plan
        .into_iter()
        .map(|file| {
            let content = Some(format!("text of {}", file.name));
            ExtractedFile { file, content }
        })
        .collect();
    let fresh = scan_folder(&mut state, "/docs".to_string(), extracted);
    assert_eq!(fresh.len(), 3);
    assert!(fresh.iter().all(|f| f.content.is_empty()));
    assert_eq!(state.index.len(), 3);
    assert_eq!(state.index[2].content, "text of c.md");
    assert_eq!(state.watched_folders, vec!["/docs"]);

    // Nothing changed: the second scan reads nothing and leaves the table.
    let plan = plan_scan(&state.index, walk(), false);
    assert!(plan.is_empty());
    let fresh = scan_folder(&mut state, "/docs".to_string(), Vec::new());
    assert!(fresh.is_empty());
    assert_eq!(
        paths(&state.index),
        vec!["/docs/a.txt", "/docs/b.docx", "/docs/sub/c.md"]
    );
    assert_eq!(state.index[0].content, "text of a.txt");
    assert_eq!(state.watched_folders, vec!["/docs"]);
}

#[test]
fn a_rescan_reads_only_what_changed() {
    let mut state = AppState::default();
    scan_folder(
        &mut state,
        "/docs".to_string(),
        vec![
            read("/docs/a.txt", 10, 100, Some("a one")),
            read("/docs/b.txt", 20, 200, Some("b one")),
        ],
    );
    let walk = vec![
        scanned("/docs/a.txt", 10, 100),
        scanned("/docs/b.txt", 25, 250),
        scanned("/docs/new.txt", 5, 300),
    ];
    let plan = plan_scan(&state.index, walk, false);
    let planned: Vec<&str> = plan.iter().map(|f| f.path.as_str()).collect();
    assert_eq!(planned, vec!["/docs/b.txt", "/docs/new.txt"]);
    let fresh = scan_folder(
        &mut state,
        "/docs".to_string(),
        vec![
            read("/docs/b.txt", 25, 250, Some("b two")),
            read("/docs/new.txt", 5, 300, Some("new")),
        ],
    );
    assert_eq!(paths(&fresh), vec!["/docs/b.txt", "/docs/new.txt"]);
    assert_eq!(
        paths(&state.index),
        vec!["/docs/a.txt", "/docs/b.txt", "/docs/new.txt"]
    );
    assert_eq!(state.index[1].content, "b two");
    assert_eq!(state.index[1].size, 25);
}

#[test]
fn a_file_that_is_gone_stays_in_the_table() {
    let mut state = AppState::default();
    scan_folder(
        &mut state,
        "/docs".to_string(),
        vec![
            read("/docs/a.txt", 10, 100, Some("a")),
            read("/docs/gone.txt", 20, 200, Some("gone")),
        ],
    );
    // The next walk no longer comes across `gone.txt`.
    let plan = plan_scan(&state.index, vec![scanned("/docs/a.txt", 10, 100)], false);
    assert!(plan.is_empty());
    scan_folder(&mut state, "/docs".to_string(), Vec::new());
    assert_eq!(paths(&state.index), vec!["/docs/a.txt", "/docs/gone.txt"]);
}

#[test]
fn files_without_text_do_not_enter_the_table() {
    let mut state = AppState::default();
    let fresh = scan_folder(
        &mut state,
        "/docs".to_string(),
        vec![
            read("/docs/a.txt", 10, 100, None),
            read("/docs/b.txt", 10, 100, Some("")),
            read("/docs/c.txt", 10, 100, Some("text")),
        ],
    );
    assert_eq!(paths(&fresh), vec!["/docs/c.txt"]);
    assert_eq!(paths(&state.index), vec!["/docs/c.txt"]);
}

#[test]
fn a_forced_scan_replaces_what_is_there() {
    let mut state = AppState::default();
    scan_folder(
        &mut state,
        "/docs".to_string(),
        vec![read("/docs/a.txt", 10, 100, Some("first"))],
    );
    let plan = plan_scan(&state.index, vec![scanned("/docs/a.txt", 10, 100)], true);
    assert_eq!(plan.len(), 1);
    scan_folder(
        &mut state,
        "/docs".to_string(),
        vec![read("/docs/a.txt", 10, 100, Some("second"))],
    );
    assert_eq!(state.index.len(), 1);
    assert_eq!(state.index[0].content, "second");
}

#[test]
fn a_rescan_of_many_files() {
    let mut state = AppState::default();
    let walk = || -> Vec<ScannedFile> {
        (0..2000)
            .map(|i| scanned(&format!("/docs/{}/f{}.txt", i % 17, i), 10 + i as u64, i as i64))
            .collect()
    };
    let extracted: Vec<ExtractedFile> = plan_scan(&state.index, walk(), false)
        .into_iter()
        .map(|file| ExtractedFile { file, content: Some("text".to_string()) })
        .collect();
    assert_eq!(extracted.len(), 2000);
    scan_folder(&mut state, "/docs".to_string(), extracted);
    assert_eq!(state.index.len(), 2000);
    assert!(plan_scan(&state.index, walk(), false).is_empty());
    assert_eq!(plan_scan(&state.index, walk(), true).len(), 2000);
}

#[test]
fn hidden_and_lock_files_are_never_read() {
    // Whatever the walk hands in, the plan leaves them out, forced or not.
    for name in [".hidden.txt", "~$report.docx", ".notes.md"] {
        let path = format!("/docs/{}", name);
        assert!(!needs_extraction(&table(), &scanned(&path, 10, 5), false), "{}", name);
        assert!(!needs_extraction(&Vec::new(), &scanned(&path, 10, 5), true), "{}", name);
        assert!(build_document(read(&path, 10, 5, Some("text"))).is_none(), "{}", name);
    }
    let plan = plan_scan(
        &Vec::new(),
        vec![
            scanned("/docs/.hidden.txt", 10, 5),
            scanned("/docs/seen.txt", 10, 5),
            scanned("/docs/~$seen.docx", 10, 5),
        ],
        false,
    );
    let planned: Vec<&str> = plan.iter().map(|f| f.path.as_str()).collect();
    assert_eq!(planned, vec!["/docs/seen.txt"]);
}

#[test]
fn a_walk_with_hidden_files_finds_nothing_new() {
    // The table knows every file that counts; the hidden one, the empty one
    // and the one of no known kind are not in it and are not read.
    let mut state = AppState::default();
    state.index = table();
    let before: Vec<String> = state.index.iter().map(|f| format!("{:?}", f)).collect();
    let mut walk: Vec<ScannedFile> = table()
        .iter()
        .map(|f| scanned(&f.path, f.size, f.last_modified.secs))
        .collect();
    walk.push(scanned("/docs/.hidden.txt", 10, 5));
    walk.push(scanned("/docs/empty.txt", 0, 5));
    walk.push(scanned("/docs/picture.png", 10, 5));
    let plan = plan_scan(&state.index, walk, false);
    assert!(plan.is_empty());
    let returned = scan_folder(&mut state, "/docs".to_string(), Vec::new());
    assert!(returned.is_empty());
    let after: Vec<String> = state.index.iter().map(|f| format!("{:?}", f)).collect();
    assert_eq!(before, after);
}
