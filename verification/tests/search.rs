use docufind::context::{find_matches_in_content, get_context_around_match};
use docufind::coordinator::{
    gather_results, index_request, paginate, search_index, supplement, MIN_INDEX_CANDIDATES,
};
use docufind::direct::{contains_ignore_case, scan_document, search_direct_content, prepare_query};
use docufind::models::{FileData, Match, SearchFilters, SearchResult, Timestamp};
use docufind::script::is_caseless_script;
use docufind::state::AppState;

fn doc(path: &str, name: &str, content: &str) -> FileData {
    FileData {
        path: path.to_string(),
        name: name.to_string(),
        size: content.len() as u64,
        last_modified: Timestamp { secs: 1_700_000_000, nanos: 0 },
        file_type: "text".to_string(),
        content: content.to_string(),
    }
}

fn hit(path: &str) -> SearchResult {
    SearchResult {
        file: FileData {
            path: path.to_string(),
            name: path.rsplit('/').next().unwrap().to_string(),
            size: 0,
            last_modified: Timestamp { secs: 0, nanos: 0 },
            file_type: "text".to_string(),
            content: String::new(),
        },
        matches: vec![Match {
            text: "q".to_string(),
            index: 0,
            context: "Match found for 'q'".to_string(),
        }],
        score_tenths: 10,
    }
}

fn paths(results: &[SearchResult]) -> Vec<&str> {
    results.iter().map(|r| r.file.path.as_str()).collect()
}

fn now() -> Timestamp {
    Timestamp { secs: 1_800_000_000, nanos: 7 }
}

// ---------------------------------------------------------------------------
// Scripts
// ---------------------------------------------------------------------------

#[test]
fn latin_has_case() {
    assert!(!is_caseless_script("hello"));
    assert!(!is_caseless_script("Ünïcode"));
    assert!(!is_caseless_script("привет"));
}

#[test]
fn arabic_hebrew_and_cjk_have_none() {
    assert!(is_caseless_script("مرحبا"));
    assert!(is_caseless_script("שלום"));
    assert!(is_caseless_script("你好世界"));
    assert!(is_caseless_script("こんにちは"));
    assert!(is_caseless_script("カタカナ"));
}

#[test]
fn a_text_without_letters_counts_as_caseless() {
    assert!(is_caseless_script(""));
    assert!(is_caseless_script("12345 !?"));
}

#[test]
fn only_the_first_five_letters_decide() {
    assert!(is_caseless_script("مرحبا hello"));
    assert!(!is_caseless_script("مرحبx"));
    assert!(is_caseless_script("مرحبا بالعالم x"));
    assert!(!is_caseless_script("a مرحبا"));
}

#[test]
fn only_the_first_twenty_characters_are_looked_at() {
    let text = format!("{}abc", "1".repeat(20));
    assert!(is_caseless_script(&text));
    let text = format!("{}abc", "1".repeat(19));
    assert!(!is_caseless_script(&text));
    let text = format!("م{}abc", " ".repeat(19));
    assert!(is_caseless_script(&text));
}

// ---------------------------------------------------------------------------
// Context
// ---------------------------------------------------------------------------

#[test]
fn context_in_ascii_is_cut_by_bytes() {
    let content = "0123456789abcdefghijklmnopqrstuvwxyz";
    assert_eq!(get_context_around_match(content, 10, 3, 4), "6789abcdefg");
    assert_eq!(get_context_around_match(content, 2, 3, 4), "012345678");
    assert_eq!(get_context_around_match(content, 30, 3, 10), "klmnopqrstuvwxyz");
    assert_eq!(get_context_around_match(content, 0, 0, 0), "");
    assert_eq!(get_context_around_match("", 0, 5, 5), "");
}

#[test]
fn context_of_a_place_past_the_end() {
    let content = "0123456789";
    assert_eq!(get_context_around_match(content, 12, 1, 5), "789");
    assert_eq!(get_context_around_match(content, 100, 1, 5), "");
    assert_eq!(
        get_context_around_match(content, usize::MAX, usize::MAX, usize::MAX),
        "0123456789"
    );
    assert_eq!(get_context_around_match(content, usize::MAX, usize::MAX, 0), "");
}

#[test]
fn context_outside_ascii_is_cut_by_characters() {
    // Each of the first five characters takes two bytes.
    let content = "ééééé hello wörld";
    // Byte 11 is the `h`, character 6.
    assert_eq!(get_context_around_match(content, 11, 5, 2), "é hello w");
    // A byte inside a character belongs to that character.
    assert_eq!(get_context_around_match(content, 3, 0, 1), "éé");
    assert_eq!(get_context_around_match(content, 2, 0, 1), "éé");
    // The length is added as it is, in characters.
    assert_eq!(get_context_around_match(content, 0, 2, 1), "ééé");
    assert_eq!(get_context_around_match(content, 1000, 1, 3), "rld");
}

#[test]
fn matches_record_five_places_at_most() {
    let content = "ab ab ab ab ab ab ab";
    let matches = find_matches_in_content(content, "file.txt", "ab");
    assert_eq!(matches.len(), 5);
    let places: Vec<usize> = matches.iter().map(|m| m.index).collect();
    assert_eq!(places, vec![0, 3, 6, 9, 12]);
    assert!(matches.iter().all(|m| m.text == "ab"));
    assert_eq!(matches[0].context, content);
}

#[test]
fn matches_do_not_overlap() {
    let matches = find_matches_in_content("aaaaa", "f", "aa");
    let places: Vec<usize> = matches.iter().map(|m| m.index).collect();
    assert_eq!(places, vec![0, 2]);
}

#[test]
fn matches_are_found_ignoring_case_and_shown_as_written() {
    let matches = find_matches_in_content("The Budget is set", "plan.txt", "budget");
    assert_eq!(matches.len(), 1);
    assert_eq!(matches[0].index, 4);
    assert_eq!(matches[0].text, "budget");
    assert_eq!(matches[0].context, "The Budget is set");
}

#[test]
fn match_places_are_byte_offsets() {
    let matches = find_matches_in_content("äö budget", "f", "budget");
    assert_eq!(matches.len(), 1);
    assert_eq!(matches[0].index, 5);
}

#[test]
fn context_reaches_fifty_characters_each_way() {
    let content = format!("{}needle{}", "x".repeat(80), "y".repeat(80));
    let matches = find_matches_in_content(&content, "f", "needle");
    assert_eq!(matches.len(), 1);
    assert_eq!(matches[0].index, 80);
    assert_eq!(
        matches[0].context,
        format!("{}needle{}", "x".repeat(50), "y".repeat(50))
    );
}

#[test]
fn the_name_counts_where_the_content_has_no_place() {
    let matches = find_matches_in_content("nothing here", "Budget.txt", "budget");
    assert_eq!(matches.len(), 1);
    assert_eq!(matches[0].index, 0);
    assert_eq!(matches[0].context, "Filename: Budget.txt");
    let matches = find_matches_in_content("budget here", "Budget.txt", "budget");
    assert_eq!(matches.len(), 1);
    assert_eq!(matches[0].context, "budget here");
}

#[test]
fn nothing_matches_where_the_term_is_absent() {
    assert!(find_matches_in_content("abc", "def", "xyz").is_empty());
}

#[test]
fn the_empty_term_stands_at_every_character() {
    let matches = find_matches_in_content("abc", "f", "");
    let places: Vec<usize> = matches.iter().map(|m| m.index).collect();
    assert_eq!(places, vec![0, 1, 2, 3]);
    let matches = find_matches_in_content("abcdefgh", "f", "");
    assert_eq!(matches.len(), 5);
}

// ---------------------------------------------------------------------------
// The direct scan
// ---------------------------------------------------------------------------

#[test]
fn contains_ignoring_case() {
    assert!(contains_ignore_case("The BUDGET plan", "budget"));
    assert!(contains_ignore_case("anything", ""));
    assert!(contains_ignore_case("", ""));
    assert!(!contains_ignore_case("", "a"));
    assert!(!contains_ignore_case("short", "longer than that"));
    assert!(contains_ignore_case("Größe UND Maß", "größe und"));
    assert!(!contains_ignore_case("plain ascii", "é"));
}

#[test]
fn contains_ignoring_case_takes_the_needle_as_it_is_on_unicode_text() {
    // The needle is expected in lower case.
    assert!(!contains_ignore_case("Größe", "GRÖSSE"));
    // On ASCII text the letters are compared whatever their case.
    assert!(contains_ignore_case("plain text", "PLAIN"));
}

#[test]
fn a_document_answers_with_places_and_score() {
    let file = doc("/d/report.txt", "report.txt", "The annual report covers the budget.");
    let q = prepare_query("budget", None);
    let result = scan_document(&file, &q).unwrap();
    assert_eq!(result.file.path, "/d/report.txt");
    assert_eq!(result.file.content, file.content);
    assert_eq!(result.matches.len(), 1);
    assert_eq!(result.matches[0].index, 29);
    // A plain hit scores 1.0 and each place 0.1.
    assert_eq!(result.score_tenths, 11);
}

#[test]
fn a_hit_on_the_name_scores_two() {
    let file = doc("/d/budget.txt", "budget.txt", "the budget and the budget");
    let q = prepare_query("budget", None);
    let result = scan_document(&file, &q).unwrap();
    assert_eq!(result.matches.len(), 2);
    assert_eq!(result.score_tenths, 22);
    let file = doc("/d/Budget 2024.txt", "Budget 2024.txt", "figures only");
    let result = scan_document(&file, &q).unwrap();
    assert_eq!(result.matches.len(), 1);
    assert_eq!(result.matches[0].context, "Filename: Budget 2024.txt");
    // The match that names the file is no place in the content.
    assert_eq!(result.score_tenths, 20);
}

#[test]
fn the_score_counts_five_places_at_most() {
    let file = doc("/d/a.txt", "a.txt", &"word ".repeat(40));
    let q = prepare_query("word", None);
    let result = scan_document(&file, &q).unwrap();
    assert_eq!(result.matches.len(), 5);
    assert_eq!(result.score_tenths, 15);
}

#[test]
fn a_document_without_the_query_is_passed_over() {
    let file = doc("/d/a.txt", "a.txt", "nothing of interest");
    assert!(scan_document(&file, &prepare_query("budget", None)).is_none());
}

#[test]
fn bare_words_are_optional_in_the_scan() {
    // One of the words is enough, wherever it stands.
    let file = doc("/d/a.txt", "a.txt", "alpha and then beta");
    assert!(scan_document(&file, &prepare_query("alpha beta", None)).is_some());
    let file = doc("/d/a.txt", "a.txt", "only beta here");
    let result = scan_document(&file, &prepare_query("alpha beta", None)).unwrap();
    // The places shown are those of the first word, of which there are none.
    assert!(result.matches.is_empty());
    assert_eq!(result.score_tenths, 10);
    let file = doc("/d/a.txt", "a.txt", "neither of them");
    assert!(scan_document(&file, &prepare_query("alpha beta", None)).is_none());
}

#[test]
fn a_query_without_terms_is_looked_for_as_a_whole() {
    // `AND` alone is an operator without words: the text is looked for.
    let file = doc("/d/a.txt", "a.txt", "this and that");
    assert!(scan_document(&file, &prepare_query("AND", None)).is_some());
    let file = doc("/d/a.txt", "a.txt", "this or that");
    assert!(scan_document(&file, &prepare_query("AND", None)).is_none());
}

#[test]
fn scenario_phrase_and_word_in_the_scan() {
    let files = vec![
        doc("/d/a.txt", "a.txt", "the annual report covers budget"),
        doc("/d/b.txt", "b.txt", "the annual report"),
    ];
    let results = search_direct_content("\"annual report\" AND budget", &files, None, None).unwrap();
    assert_eq!(paths(&results), vec!["/d/a.txt"]);
    assert_eq!(results[0].matches.len(), 1);
    assert_eq!(results[0].matches[0].text, "budget");
    assert_eq!(results[0].score_tenths, 11);

    let mut state = AppState::default();
    state.index = files;
    let results = search_index("\"annual report\" AND budget", None, &mut state, None, now());
    assert_eq!(paths(&results), vec!["/d/a.txt"]);
}

#[test]
fn scenario_exclusion_only_in_the_scan() {
    let files = vec![
        doc("/d/a.txt", "a.txt", "final version"),
        doc("/d/b.txt", "b.txt", "draft version"),
    ];
    let results = search_direct_content("-draft", &files, None, None).unwrap();
    assert_eq!(paths(&results), vec!["/d/a.txt"]);
    // Nothing is looked for, so no place is shown and the score is plain.
    assert!(results[0].matches.is_empty());
    assert_eq!(results[0].score_tenths, 10);

    let mut state = AppState::default();
    state.index = files;
    let results = search_index("-draft", None, &mut state, None, now());
    assert_eq!(paths(&results), vec!["/d/a.txt"]);
}

#[test]
fn the_name_counts_for_the_highlighted_term() {
    // The name holds the word that is shown, not the query as written.
    let file = doc("/d/budget.txt", "budget.txt", "plan and budget");
    let result = scan_document(&file, &prepare_query("budget AND plan", None)).unwrap();
    assert_eq!(result.matches[0].text, "budget");
    assert_eq!(result.score_tenths, 21);
}

#[test]
fn the_scan_ignores_case_for_scripts_with_case() {
    let file = doc("/d/a.txt", "a.txt", "The BUDGET Plan");
    let result = scan_document(&file, &prepare_query("Budget", None)).unwrap();
    assert_eq!(result.matches[0].text, "budget");
    assert_eq!(result.matches[0].index, 4);
    // The context is cut from the text as it is searched.
    assert_eq!(result.matches[0].context, "the budget plan");
}

#[test]
fn the_scan_leaves_caseless_scripts_as_they_are() {
    let file = doc("/d/a.txt", "a.txt", "هذا تقرير سنوي");
    let result = scan_document(&file, &prepare_query("تقرير", None)).unwrap();
    assert_eq!(result.matches.len(), 1);
    assert_eq!(result.matches[0].text, "تقرير");
    assert_eq!(result.matches[0].index, "هذا ".len());
}

#[test]
fn a_scan_restricted_to_one_path_passes_the_others_over() {
    let a = doc("/d/a.txt", "a.txt", "budget");
    let b = doc("/d/b.txt", "b.txt", "budget");
    let q = prepare_query("budget", Some("/d/b.txt"));
    assert!(scan_document(&a, &q).is_none());
    assert!(scan_document(&b, &q).is_some());
}

#[test]
fn the_scan_ranks_by_score_and_keeps_the_order_of_equals() {
    let files = vec![
        doc("/d/one.txt", "one.txt", "budget"),
        doc("/d/budget.txt", "budget.txt", "nothing"),
        doc("/d/two.txt", "two.txt", "budget"),
        doc("/d/many.txt", "many.txt", "budget budget budget"),
        doc("/d/none.txt", "none.txt", "other"),
    ];
    let results = search_direct_content("budget", &files, None, None).unwrap();
    assert_eq!(
        paths(&results),
        vec!["/d/budget.txt", "/d/many.txt", "/d/one.txt", "/d/two.txt"]
    );
    let scores: Vec<u32> = results.iter().map(|r| r.score_tenths).collect();
    assert_eq!(scores, vec![20, 13, 11, 11]);
}

#[test]
fn the_scan_stops_taking_results_at_the_cap() {
    let files = vec![
        doc("/d/1.txt", "1.txt", "budget"),
        doc("/d/2.txt", "2.txt", "budget budget"),
        doc("/d/3.txt", "3.txt", "budget budget budget"),
    ];
    let results = search_direct_content("budget", &files, Some(2), None).unwrap();
    // The first two in the order of the documents, ranked.
    assert_eq!(paths(&results), vec!["/d/2.txt", "/d/1.txt"]);
    assert!(search_direct_content("budget", &files, Some(0), None)
        .unwrap()
        .is_empty());
}

#[test]
fn the_scan_gives_a_hundred_results_by_default() {
    let files: Vec<FileData> = (0..150)
        .map(|i| doc(&format!("/d/{}.txt", i), "f.txt", "budget"))
        .collect();
    let results = search_direct_content("budget", &files, None, None).unwrap();
    assert_eq!(results.len(), 100);
    assert_eq!(results[0].file.path, "/d/0.txt");
    assert_eq!(results[99].file.path, "/d/99.txt");
}

#[test]
fn the_scan_of_one_file() {
    let files = vec![
        doc("/d/a.txt", "a.txt", "budget"),
        doc("/d/b.txt", "b.txt", "budget"),
    ];
    let results = search_direct_content("budget", &files, None, Some("/d/b.txt")).unwrap();
    assert_eq!(paths(&results), vec!["/d/b.txt"]);
    let results = search_direct_content("budget", &files, None, Some("/d/c.txt")).unwrap();
    assert!(results.is_empty());
}

#[test]
fn the_scan_is_the_same_every_time() {
    let files: Vec<FileData> = (0..40)
        .map(|i| doc(&format!("/d/{}.txt", i), "f.txt", &"budget ".repeat(i % 7)))
        .collect();
    let first = search_direct_content("budget", &files, Some(10), None).unwrap();
    let second = search_direct_content("budget", &files, Some(10), None).unwrap();
    assert_eq!(paths(&first), paths(&second));
}

// ---------------------------------------------------------------------------
// The coordinator
// ---------------------------------------------------------------------------

fn state_with(files: Vec<FileData>) -> AppState {
    let mut state = AppState::default();
    state.index = files;
    state
}

#[test]
fn a_blank_query_gives_nothing_and_is_not_recorded() {
    let mut state = state_with(vec![doc("/d/a.txt", "a.txt", "budget")]);
    assert!(search_index("", None, &mut state, None, now()).is_empty());
    assert!(search_index("  \t", None, &mut state, Some(vec![hit("/x")]), now()).is_empty());
    assert!(state.search_history.get_all().is_empty());
    assert!(index_request("   ", None).is_none());
}

#[test]
fn the_store_is_asked_for_every_hit_whatever_the_page() {
    let request = index_request("budget", None).unwrap();
    assert_eq!(request.query, "budget");
    assert_eq!(request.limit, usize::MAX);
    let filters = SearchFilters {
        max_results: Some(20),
        offset: Some(40),
        ..Default::default()
    };
    assert_eq!(index_request("budget", Some(&filters)).unwrap().limit, usize::MAX);
}

#[test]
fn the_filters_see_store_hits_beyond_the_page() {
    // Twelve hits of the store, of which only the last two pass the filter:
    // a page of two holds both.
    let mut state = AppState::default();
    let mut hits: Vec<SearchResult> = (0..10).map(|i| hit(&format!("/small/{}", i))).collect();
    for i in 0..2 {
        let mut large = hit(&format!("/large/{}", i));
        large.file.size = 5000;
        hits.push(large);
    }
    let filters = SearchFilters {
        min_size: Some(1000),
        max_results: Some(2),
        ..Default::default()
    };
    let results = search_index("budget", Some(&filters), &mut state, Some(hits), now());
    assert_eq!(paths(&results), vec!["/large/0", "/large/1"]);
}

#[test]
fn a_search_of_one_file_asks_no_store() {
    let filters = SearchFilters {
        file_path: Some("/d/a.txt".to_string()),
        ..Default::default()
    };
    assert!(index_request("budget", Some(&filters)).is_none());
}

#[test]
fn without_the_store_the_scan_answers() {
    let mut state = state_with(vec![
        doc("/d/a.txt", "a.txt", "budget"),
        doc("/d/b.txt", "b.txt", "other"),
    ]);
    let results = search_index("budget", None, &mut state, None, now());
    assert_eq!(paths(&results), vec!["/d/a.txt"]);
}

#[test]
fn five_hits_of_the_store_are_enough() {
    assert_eq!(MIN_INDEX_CANDIDATES, 5);
    let mut state = state_with(vec![doc("/d/extra.txt", "extra.txt", "budget")]);
    let hits: Vec<SearchResult> = (0..5).map(|i| hit(&format!("/s/{}", i))).collect();
    let results = search_index("budget", None, &mut state, Some(hits), now());
    assert_eq!(paths(&results), vec!["/s/0", "/s/1", "/s/2", "/s/3", "/s/4"]);
}

#[test]
fn scenario_few_hits_are_supplemented_without_duplicates() {
    let mut state = state_with(vec![
        doc("/d/a.txt", "a.txt", "budget"),
        doc("/d/b.txt", "b.txt", "budget budget"),
        doc("/d/c.txt", "c.txt", "budget"),
    ]);
    let hits = vec![hit("/d/c.txt"), hit("/s/only-in-store")];
    let results = search_index("budget", None, &mut state, Some(hits), now());
    // The store first, in its order; then the scan in its order, without
    // the document that the store named.
    assert_eq!(
        paths(&results),
        vec!["/d/c.txt", "/s/only-in-store", "/d/b.txt", "/d/a.txt"]
    );
    let mut seen = paths(&results);
    seen.sort();
    seen.dedup();
    assert_eq!(seen.len(), results.len());
}

#[test]
fn an_empty_answer_of_the_store_is_supplemented_too() {
    let mut state = state_with(vec![doc("/d/a.txt", "a.txt", "budget")]);
    let results = search_index("budget", None, &mut state, Some(Vec::new()), now());
    assert_eq!(paths(&results), vec!["/d/a.txt"]);
}

#[test]
fn supplement_keeps_the_store_first() {
    let merged = supplement(
        vec![hit("/b"), hit("/a")],
        vec![hit("/a"), hit("/c"), hit("/b"), hit("/d")],
    );
    assert_eq!(paths(&merged), vec!["/b", "/a", "/c", "/d"]);
}

#[test]
fn excluded_folders_are_hidden() {
    let mut state = state_with(vec![
        doc("/docs/private/sub/x.txt", "x.txt", "budget"),
        doc("/docs/public/y.txt", "y.txt", "budget"),
        doc("/docs/private2/z.txt", "z.txt", "budget"),
    ]);
    state.excluded_folders = vec!["/docs/private".to_string()];
    let results = search_index("budget", None, &mut state, None, now());
    assert_eq!(
        paths(&results),
        vec!["/docs/public/y.txt", "/docs/private2/z.txt"]
    );
    // Hits of the store are hidden as well.
    let hits: Vec<SearchResult> = vec![
        hit("/docs/private/a"),
        hit("/docs/b"),
        hit("/docs/c"),
        hit("/docs/d"),
        hit("/docs/e"),
        hit("/docs/f"),
    ];
    let results = search_index("budget", None, &mut state, Some(hits), now());
    assert_eq!(
        paths(&results),
        vec!["/docs/b", "/docs/c", "/docs/d", "/docs/e", "/docs/f"]
    );
}

#[test]
fn a_search_of_one_file_looks_into_excluded_folders() {
    let mut state = state_with(vec![
        doc("/docs/private/x.txt", "x.txt", "budget"),
        doc("/docs/public/y.txt", "y.txt", "budget"),
    ]);
    state.excluded_folders = vec!["/docs/private".to_string()];
    let filters = SearchFilters {
        file_path: Some("/docs/private/x.txt".to_string()),
        ..Default::default()
    };
    // The store is not asked; what it may have said is not used.
    let results = search_index(
        "budget",
        Some(&filters),
        &mut state,
        Some(vec![hit("/s/1")]),
        now(),
    );
    assert_eq!(paths(&results), vec!["/docs/private/x.txt"]);
    assert!(state.search_history.get_all().is_empty());
}

#[test]
fn filters_come_before_the_page() {
    let files: Vec<FileData> = (0..10)
        .map(|i| {
            let mut d = doc(&format!("/d/{}.txt", i), "f.txt", "budget");
            d.size = i;
            d
        })
        .collect();
    let mut state = state_with(files);
    let filters = SearchFilters {
        min_size: Some(4),
        max_results: Some(3),
        offset: Some(2),
        ..Default::default()
    };
    let results = search_index("budget", Some(&filters), &mut state, None, now());
    // Sizes 4 to 9 pass; the page skips two of them and takes three.
    assert_eq!(paths(&results), vec!["/d/6.txt", "/d/7.txt", "/d/8.txt"]);
}

#[test]
fn the_page_is_a_slice_of_the_results() {
    let all: Vec<SearchResult> = (0..10).map(|i| hit(&format!("/{}", i))).collect();
    let full = |_: ()| -> Vec<SearchResult> { (0..10).map(|i| hit(&format!("/{}", i))).collect() };
    for offset in 0..12usize {
        for limit in 0..12usize {
            let page = paginate(full(()), offset, limit);
            let start = offset.min(all.len());
            let end = (start + limit).min(all.len());
            assert_eq!(paths(&page), paths(&all[start..end]));
            if offset < all.len() {
                assert_eq!(page.len(), limit.min(all.len() - offset));
            }
        }
    }
    assert!(paginate(full(()), usize::MAX, usize::MAX).is_empty());
    assert_eq!(paginate(full(()), 0, usize::MAX).len(), 10);
}

#[test]
fn the_default_page_holds_a_hundred() {
    let files: Vec<FileData> = (0..130)
        .map(|i| doc(&format!("/d/{}.txt", i), "f.txt", "budget"))
        .collect();
    let mut state = state_with(files);
    let results = search_index("budget", None, &mut state, None, now());
    assert_eq!(results.len(), 100);
    let filters = SearchFilters {
        offset: Some(100),
        ..Default::default()
    };
    let results = search_index("budget", Some(&filters), &mut state, None, now());
    assert_eq!(results.len(), 30);
    assert_eq!(results[0].file.path, "/d/100.txt");
}

#[test]
fn a_search_is_recorded_with_the_size_of_its_page() {
    let mut state = state_with(vec![
        doc("/d/a.txt", "a.txt", "budget"),
        doc("/d/b.txt", "b.txt", "budget"),
        doc("/d/c.txt", "c.txt", "budget"),
    ]);
    let filters = SearchFilters {
        max_results: Some(2),
        ..Default::default()
    };
    search_index("Budget", Some(&filters), &mut state, None, now());
    let entries = state.search_history.get_all();
    assert_eq!(entries.len(), 1);
    assert_eq!(entries[0].query, "Budget");
    assert_eq!(entries[0].result_count, 2);
    assert_eq!(entries[0].timestamp, now());
    search_index("nothing to find", None, &mut state, None, now());
    let entries = state.search_history.get_all();
    assert_eq!(entries.len(), 2);
    assert_eq!(entries[0].result_count, 0);
}

#[test]
fn a_search_changes_nothing_but_the_ledger() {
    let mut state = state_with(vec![doc("/d/a.txt", "a.txt", "budget")]);
    state.watched_folders = vec!["/d".to_string()];
    state.excluded_folders = vec!["/x".to_string()];
    search_index("budget", None, &mut state, None, now());
    assert_eq!(state.index.len(), 1);
    assert_eq!(state.index[0].content, "budget");
    assert_eq!(state.watched_folders, vec!["/d"]);
    assert_eq!(state.excluded_folders, vec!["/x"]);
}

#[test]
fn gathering_gives_every_result() {
    let files: Vec<FileData> = (0..130)
        .map(|i| doc(&format!("/d/{}.txt", i), "f.txt", "budget"))
        .collect();
    let all = gather_results("budget", None, &files, &Vec::new(), None);
    assert_eq!(all.len(), 130);
}

#[test]
fn a_search_over_many_documents() {
    let files: Vec<FileData> = (0..2000)
        .map(|i| {
            let body = if i % 7 == 0 { "the Budget of the year" } else { "nothing of note" };
            doc(
                &format!("/d/{}/{}.txt", i % 13, i),
                &format!("{}.txt", i),
                &format!("{} {}", "filler text ".repeat(20), body),
            )
        })
        .collect();
    let mut state = state_with(files);
    state.excluded_folders = vec!["/d/3".to_string()];
    let filters = SearchFilters {
        max_results: Some(1000),
        ..Default::default()
    };
    let results = search_index("budget", Some(&filters), &mut state, None, now());
    let expected = (0..2000).filter(|i| i % 7 == 0 && i % 13 != 3).count();
    assert_eq!(results.len(), expected);
    assert!(results.iter().all(|r| r.score_tenths == 11));
    assert_eq!(results[0].file.path, "/d/0/0.txt");
}
