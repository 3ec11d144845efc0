use docufind::headings::detect_heading_level;

#[test]
fn test_detect_heading_levels() {
    assert_eq!(detect_heading_level("Heading1", "Heading 1"), Some(1));
    assert_eq!(detect_heading_level("Heading2", ""), Some(2));
    assert_eq!(detect_heading_level("Title", "Title"), Some(1));
    assert_eq!(detect_heading_level("Normal", "Normal"), None);
}

#[test]
fn heading_by_name_alone() {
    assert_eq!(detect_heading_level("Style7", "heading 3"), Some(3));
    assert_eq!(detect_heading_level("", "Heading 6"), Some(6));
}

#[test]
fn heading_in_other_languages() {
    assert_eq!(detect_heading_level("Titre2", ""), Some(2));
    assert_eq!(detect_heading_level("berschrift4", ""), Some(4));
    assert_eq!(detect_heading_level("\u{00DC}berschrift5", ""), Some(5));
}

#[test]
fn short_spelling_counts_anywhere() {
    assert_eq!(detect_heading_level("h3", ""), Some(3));
    assert_eq!(detect_heading_level("Depth2Box", ""), Some(2));
}

#[test]
fn lowest_level_wins() {
    assert_eq!(detect_heading_level("Heading5", "heading 2"), Some(2));
    assert_eq!(detect_heading_level("h6h1", ""), Some(1));
}

#[test]
fn levels_beyond_six_are_none() {
    assert_eq!(detect_heading_level("Heading7", "Heading 7"), None);
    assert_eq!(detect_heading_level("Heading0", ""), None);
    assert_eq!(detect_heading_level("Heading", "Heading"), None);
}

#[test]
fn title_and_subtitle() {
    assert_eq!(detect_heading_level("TITLE", ""), Some(1));
    assert_eq!(detect_heading_level("", "title"), Some(1));
    assert_eq!(detect_heading_level("Subtitle", ""), Some(2));
    assert_eq!(detect_heading_level("x", "SubTitle"), Some(2));
    assert_eq!(detect_heading_level("MyTitle", "Title Page"), None);
}
