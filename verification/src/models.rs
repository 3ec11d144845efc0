//! The data that the engine keeps and hands out.

use vstd::prelude::*;

verus! {

/// A point in time: whole seconds since the Unix epoch, and the nanoseconds
/// into that second.
#[derive(Clone, Copy, Debug, PartialEq, Eq, Structural)]
pub struct Timestamp {
    pub secs: i64,
    pub nanos: u32,
}

impl Timestamp {
    /// `self` lies strictly before `other`.
    pub open spec fn is_before(self, other: Timestamp) -> bool {
        self.secs < other.secs || (self.secs == other.secs && self.nanos < other.nanos)
    }

    /// Whether `self` lies strictly before `other`.
    pub fn before(&self, other: &Timestamp) -> (r: bool)
        ensures
            r == self.is_before(*other),
    {
        self.secs < other.secs || (self.secs == other.secs && self.nanos < other.nanos)
    }
}

/// One indexed document. `path` identifies it.
#[derive(Debug)]
pub struct FileData {
    pub path: String,
    pub name: String,
    pub size: u64,
    pub last_modified: Timestamp,
    pub file_type: String,
    pub content: String,
}

/// What a [`FileData`] holds, as mathematical values.
pub struct FileDataView {
    pub path: Seq<char>,
    pub name: Seq<char>,
    pub size: u64,
    pub last_modified: Timestamp,
    pub file_type: Seq<char>,
    pub content: Seq<char>,
}

impl View for FileData {
    type V = FileDataView;

    open spec fn view(&self) -> FileDataView {
        FileDataView {
            path: self.path@,
            name: self.name@,
            size: self.size,
            last_modified: self.last_modified,
            file_type: self.file_type@,
            content: self.content@,
        }
    }
}

impl Clone for FileData {
    fn clone(&self) -> (r: Self)
        ensures
            r == *self,
    {
        FileData {
            path: self.path.clone(),
            name: self.name.clone(),
            size: self.size,
            last_modified: self.last_modified,
            file_type: self.file_type.clone(),
            content: self.content.clone(),
        }
    }
}

impl FileDataView {
    /// The same document without its text.
    pub open spec fn without_content(self) -> FileDataView {
        FileDataView { content: Seq::empty(), ..self }
    }
}

/// The views of a sequence of documents.
pub open spec fn file_views(files: Seq<FileData>) -> Seq<FileDataView> {
    Seq::new(files.len(), |i: int| files[i]@)
}

/// One place where a term was found: the term, the byte offset in the
/// searched text, and the text around it.
#[derive(Debug)]
pub struct Match {
    pub text: String,
    pub index: usize,
    pub context: String,
}

/// What a [`Match`] holds, as mathematical values.
pub struct MatchView {
    pub text: Seq<char>,
    pub index: nat,
    pub context: Seq<char>,
}

impl View for Match {
    type V = MatchView;

    open spec fn view(&self) -> MatchView {
        MatchView { text: self.text@, index: self.index as nat, context: self.context@ }
    }
}

impl Clone for Match {
    fn clone(&self) -> (r: Self)
        ensures
            r == *self,
    {
        Match { text: self.text.clone(), index: self.index, context: self.context.clone() }
    }
}

/// The views of a sequence of matches.
pub open spec fn match_views(matches: Seq<Match>) -> Seq<MatchView> {
    Seq::new(matches.len(), |i: int| matches[i]@)
}

/// A document that answers a query, the places found in it, and its
/// relevance in tenths (a plain hit scores 10, a hit on the file name 20,
/// and each place recorded in the content adds one; a match that only
/// names the file adds nothing).
#[derive(Debug)]
pub struct SearchResult {
    pub file: FileData,
    pub matches: Vec<Match>,
    pub score_tenths: u32,
}

/// What a [`SearchResult`] holds, as mathematical values.
pub struct SearchResultView {
    pub file: FileDataView,
    pub matches: Seq<MatchView>,
    pub score_tenths: u32,
}

impl View for SearchResult {
    type V = SearchResultView;

    open spec fn view(&self) -> SearchResultView {
        SearchResultView {
            file: self.file@,
            matches: match_views(self.matches@),
            score_tenths: self.score_tenths,
        }
    }
}

/// The views of a sequence of results.
pub open spec fn result_views(results: Seq<SearchResult>) -> Seq<SearchResultView> {
    Seq::new(results.len(), |i: int| results[i]@)
}

/// A watched folder and how many indexed documents lie under it.
#[derive(Debug)]
pub struct FolderInfo {
    pub path: String,
    pub file_count: usize,
}

/// A progress report of a scan.
#[derive(Debug)]
pub struct IndexingProgress {
    pub current: usize,
    pub total: usize,
    pub filename: String,
    pub phase: String,
}

/// A folder in the exclusion tree.
#[derive(Debug)]
pub struct FolderNode {
    pub path: String,
    pub name: String,
    pub is_excluded: bool,
    pub file_count: usize,
    pub children: Vec<FolderNode>,
}

/// A past query with the time it was made and the number of its results.
#[derive(Debug)]
pub struct SearchHistoryEntry {
    pub query: String,
    pub timestamp: Timestamp,
    pub result_count: usize,
}

/// What a [`SearchHistoryEntry`] holds, as mathematical values.
pub struct HistoryEntryView {
    pub query: Seq<char>,
    pub timestamp: Timestamp,
    pub result_count: usize,
}

impl View for SearchHistoryEntry {
    type V = HistoryEntryView;

    open spec fn view(&self) -> HistoryEntryView {
        HistoryEntryView {
            query: self.query@,
            timestamp: self.timestamp,
            result_count: self.result_count,
        }
    }
}

/// The views of a sequence of entries.
pub open spec fn entry_views(entries: Seq<SearchHistoryEntry>) -> Seq<HistoryEntryView> {
    Seq::new(entries.len(), |i: int| entries[i]@)
}

impl Clone for SearchHistoryEntry {
    fn clone(&self) -> (r: Self)
        ensures
            r == *self,
    {
        SearchHistoryEntry {
            query: self.query.clone(),
            timestamp: self.timestamp,
            result_count: self.result_count,
        }
    }
}

/// What a caller may ask of a search beyond the query.
#[derive(Debug)]
pub struct SearchFilters {
    pub file_types: Option<Vec<String>>,
    pub date_from: Option<Timestamp>,
    pub date_to: Option<Timestamp>,
    pub min_size: Option<u64>,
    pub max_size: Option<u64>,
    pub folder_path: Option<String>,
    pub file_path: Option<String>,
    pub max_results: Option<usize>,
    pub offset: Option<usize>,
}

impl Default for SearchFilters {
    fn default() -> (r: Self)
        ensures
            r.file_types is None,
            r.date_from is None,
            r.date_to is None,
            r.min_size is None,
            r.max_size is None,
            r.folder_path is None,
            r.file_path is None,
            r.max_results is None,
            r.offset is None,
    {
        SearchFilters {
            file_types: None,
            date_from: None,
            date_to: None,
            min_size: None,
            max_size: None,
            folder_path: None,
            file_path: None,
            max_results: None,
            offset: None,
        }
    }
}

/// Counts over the whole index.
#[derive(Debug)]
pub struct IndexStats {
    pub total_files: usize,
    pub word_files: usize,
    pub powerpoint_files: usize,
    pub excel_files: usize,
    pub text_files: usize,
    pub total_size: u64,
    pub folder_count: usize,
}

} // verus!
