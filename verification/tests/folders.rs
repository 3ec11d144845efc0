use docufind::folders::{
    get_folder_name, get_parent_folder, is_excluded_path, is_under_folder, normalize_path,
};

#[test]
fn test_normalize_path() {
    assert_eq!(normalize_path("C:/Users/test"), "C:\\Users\\test\\");
    assert_eq!(normalize_path("C:\\Users\\test\\"), "C:\\Users\\test\\");
}

#[test]
fn test_is_under_folder() {
    assert!(is_under_folder("C:\\Users\\test\\doc.txt", "C:\\Users"));
    assert!(is_under_folder(
        "C:\\Users\\test\\sub\\doc.txt",
        "C:\\Users\\test"
    ));
    assert!(!is_under_folder("C:\\Other\\doc.txt", "C:\\Users"));
}

#[test]
fn normalize_empty_path_is_one_separator() {
    assert_eq!(normalize_path(""), "\\");
}

#[test]
fn normalize_keeps_a_final_slash_as_backslash() {
    assert_eq!(normalize_path("/docs/"), "\\docs\\");
}

#[test]
fn a_folder_is_under_itself() {
    assert!(is_under_folder("/docs/private", "/docs/private"));
    assert!(is_under_folder("/docs/private/", "/docs/private"));
}

#[test]
fn a_sibling_with_the_same_beginning_is_not_under() {
    assert!(!is_under_folder("/docs/private2/x.txt", "/docs/private"));
    assert!(!is_under_folder("C:\\Users\\testing\\a.txt", "C:\\Users\\test"));
}

#[test]
fn slashes_and_backslashes_are_the_same() {
    assert!(is_under_folder("C:/Users/test/doc.txt", "C:\\Users\\test"));
    assert!(is_under_folder("C:\\Users\\test\\doc.txt", "C:/Users"));
}

#[test]
fn parent_of_a_file_is_its_folder() {
    assert_eq!(
        get_parent_folder("C:\\Users\\test\\doc.txt"),
        Some("C:\\Users\\test".to_string())
    );
    assert_eq!(
        get_parent_folder("/docs/private/x.docx"),
        Some("/docs/private".to_string())
    );
}

#[test]
fn parent_skips_doubled_and_final_separators() {
    assert_eq!(get_parent_folder("/docs//x/"), Some("/docs".to_string()));
    assert_eq!(get_parent_folder("a/b///"), Some("a".to_string()));
}

#[test]
fn parent_below_the_root_is_the_root() {
    assert_eq!(get_parent_folder("/docs"), Some("/".to_string()));
    assert_eq!(get_parent_folder("\\docs"), Some("\\".to_string()));
}

#[test]
fn roots_and_single_components_have_no_parent() {
    assert_eq!(get_parent_folder("/"), None);
    assert_eq!(get_parent_folder(""), None);
    assert_eq!(get_parent_folder("file.txt"), None);
    assert_eq!(get_parent_folder("C:"), None);
    assert_eq!(get_parent_folder("///"), None);
}

#[test]
fn parent_of_a_drive_folder_is_the_drive_with_its_separator() {
    assert_eq!(get_parent_folder("C:\\Users"), Some("C:\\".to_string()));
    assert_eq!(get_parent_folder("C:/Users"), Some("C:/".to_string()));
    assert_eq!(get_parent_folder("C:\\\\Users\\"), Some("C:\\".to_string()));
    assert_eq!(get_parent_folder("C:\\"), None);
    // A colon deeper in the path names no drive.
    assert_eq!(get_parent_folder("/a:/b"), Some("/a:".to_string()));
    assert_eq!(get_parent_folder("C:\\x:\\y"), Some("C:\\x:".to_string()));
}

#[test]
fn folder_name_is_the_last_component() {
    assert_eq!(get_folder_name("C:\\Users\\test"), "test");
    assert_eq!(get_folder_name("/docs/private/"), "private");
    assert_eq!(get_folder_name("plain"), "plain");
}

#[test]
fn folder_name_of_a_root_is_the_path() {
    assert_eq!(get_folder_name("/"), "/");
    assert_eq!(get_folder_name(""), "");
}

#[test]
fn scenario_exclusion_reaches_deep_files() {
    let excluded = vec!["/docs/private".to_string()];
    assert!(is_excluded_path(&excluded, "/docs/private/sub/x.docx"));
    assert!(is_excluded_path(&excluded, "/docs/private"));
    assert!(!is_excluded_path(&excluded, "/docs/public/x.docx"));
    assert!(!is_excluded_path(&excluded, "/docs"));
}

#[test]
fn nothing_is_excluded_by_an_empty_list() {
    let excluded: Vec<String> = Vec::new();
    assert!(!is_excluded_path(&excluded, "/docs/private/sub/x.docx"));
}

#[test]
fn any_of_several_folders_excludes() {
    let excluded = vec!["/a".to_string(), "/b/c".to_string()];
    assert!(is_excluded_path(&excluded, "/b/c/d/e.txt"));
    assert!(is_excluded_path(&excluded, "/a/x"));
    assert!(!is_excluded_path(&excluded, "/b/x"));
}
