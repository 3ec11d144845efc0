//! The coordinator: which strategy answers a query, and how what was found
//! becomes the page that the caller sees.
//!
//! The index store is asked first, by whoever holds it; what it answered
//! comes in as a value. The coordinator supplements it with a direct scan
//! where the store gave too little or nothing, hides what lies in excluded
//! folders, lays the caller's filters over the rest, cuts out the page that
//! was asked for, and records the query in the ledger.

use vstd::prelude::*;
use crate::direct::{direct_results, search_direct_content, DEFAULT_MAX_RESULTS};
use crate::filters::{apply_filters, kept, FiltersView};
use crate::folders::{excluded_by, is_excluded_path};
use crate::history::after_add;
use crate::models::{
    file_views, result_views, FileData, FileDataView, SearchFilters, SearchResult, SearchResultView,
    Timestamp,
};
use crate::state::AppState;
use crate::text::{chars_are_blank, chars_of, is_blank, string_of, views};

verus! {

/// With fewer candidates than this from the index store, the documents are
/// scanned as well.
pub const MIN_INDEX_CANDIDATES: usize = 5;

/// How many results a page holds: what the filters say, and 100 where they
/// say nothing.
pub open spec fn limit_of(filters: Option<FiltersView>) -> usize {
    match filters {
        Some(f) => match f.max_results {
            Some(n) => n,
            None => DEFAULT_MAX_RESULTS,
        },
        None => DEFAULT_MAX_RESULTS,
    }
}

/// How many results are skipped before the page begins.
pub open spec fn offset_of(filters: Option<FiltersView>) -> usize {
    match filters {
        Some(f) => match f.offset {
            Some(n) => n,
            None => 0,
        },
        None => 0,
    }
}

/// The one document that the search is held to, if it is.
pub open spec fn single_file_of(filters: Option<FiltersView>) -> Option<Seq<char>> {
    match filters {
        Some(f) => f.file_path,
        None => None,
    }
}

/// Whether one of the results is the document at `path`.
pub open spec fn has_path(results: Seq<SearchResultView>, path: Seq<char>) -> bool {
    exists|i: int| 0 <= i < results.len() && (#[trigger] results[i]).file.path == path
}

/// The results of `extra` whose document is not among `base`, in their order.
pub open spec fn not_among(extra: Seq<SearchResultView>, base: Seq<SearchResultView>) -> Seq<
    SearchResultView,
>
    decreases extra.len(),
{
    if extra.len() == 0 {
        Seq::empty()
    } else if has_path(base, extra.last().file.path) {
        not_among(extra.drop_last(), base)
    } else {
        not_among(extra.drop_last(), base).push(extra.last())
    }
}

/// The results whose document lies in no excluded folder, in their order.
pub open spec fn visible(results: Seq<SearchResultView>, excluded: Seq<Seq<char>>) -> Seq<
    SearchResultView,
>
    decreases results.len(),
{
    if results.len() == 0 {
        Seq::empty()
    } else if excluded_by(excluded, results.last().file.path) {
        visible(results.drop_last(), excluded)
    } else {
        visible(results.drop_last(), excluded).push(results.last())
    }
}

/// What the strategies find, in the order of the merge.
///
/// A search that is held to one document scans that document and asks no
/// store. Else the answers of the store come first, as the store ranked
/// them. Where the store did not answer or gave fewer than
/// [`MIN_INDEX_CANDIDATES`], the results of a scan of every document follow
/// by falling score, but for the documents that the store named.
pub open spec fn candidates(
    query: Seq<char>,
    files: Seq<FileDataView>,
    index_hits: Option<Seq<SearchResultView>>,
    single_file: Option<Seq<char>>,
) -> Seq<SearchResultView> {
    let every = Some(files.len() as usize);
    match single_file {
        Some(path) => direct_results(query, files, every, Some(path)),
        None => {
            let stored = match index_hits {
                Some(hits) => hits,
                None => Seq::empty(),
            };
            if stored.len() >= MIN_INDEX_CANDIDATES {
                stored
            } else {
                stored + not_among(direct_results(query, files, every, None), stored)
            }
        },
    }
}

/// Every result of a search before it is cut into pages: the candidates,
/// without those in excluded folders unless the search is held to one
/// document, and without those that the filters turn down.
pub open spec fn full_results(
    query: Seq<char>,
    files: Seq<FileDataView>,
    excluded: Seq<Seq<char>>,
    index_hits: Option<Seq<SearchResultView>>,
    filters: Option<FiltersView>,
) -> Seq<SearchResultView> {
    let single = single_file_of(filters);
    let found = candidates(query, files, index_hits, single);
    let shown = if single is Some {
        found
    } else {
        visible(found, excluded)
    };
    match filters {
        Some(f) => kept(shown, f),
        None => shown,
    }
}

/// The page of `full` that begins behind `offset` results and holds `limit`
/// of them, or what is left.
pub open spec fn page(full: Seq<SearchResultView>, offset: usize, limit: usize) -> Seq<
    SearchResultView,
> {
    let start = if offset < full.len() {
        offset as int
    } else {
        full.len() as int
    };
    let end = if start + limit < full.len() {
        start + limit
    } else {
        full.len() as int
    };
    full.subrange(start, end)
}

/// What a search answers: nothing for a blank query, else the page asked for.
pub open spec fn search_results(
    query: Seq<char>,
    files: Seq<FileDataView>,
    excluded: Seq<Seq<char>>,
    index_hits: Option<Seq<SearchResultView>>,
    filters: Option<FiltersView>,
) -> Seq<SearchResultView> {
    if is_blank(query) {
        Seq::empty()
    } else {
        page(
            full_results(query, files, excluded, index_hits, filters),
            offset_of(filters),
            limit_of(filters),
        )
    }
}

/// How many hits the index store is asked for: every one. The page is cut
/// behind the filters, so what is asked of the store does not depend on it.
pub const EVERY_HIT: usize = usize::MAX;

/// What is asked of the index store for a search.
#[derive(Debug)]
pub struct IndexRequest {
    /// The query as the caller wrote it.
    pub query: String,
    /// How many hits are asked for: [`EVERY_HIT`], whatever the page.
    pub limit: usize,
}

/// Whether the index store is asked at all, and for what: not for a blank
/// query, and not for a search that is held to one document. The store is
/// asked for every hit, so that the filters see all of them before the page
/// is cut.
pub fn index_request(query: &str, filters: Option<&SearchFilters>) -> (r: Option<IndexRequest>)
    ensures
        r is Some <==> !is_blank(query@) && single_file_of(
            match filters {
                Some(f) => Some(f@),
                None => None,
            },
        ) is None,
        r matches Some(req) ==> req.query@ == query@ && req.limit == EVERY_HIT,
{
    let chars = chars_of(query);
    if chars_are_blank(&chars) {
        return None;
    }
    let (_, _, single) = read_filters(filters);
    if single {
        return None;
    }
    Some(IndexRequest { query: string_of(&chars), limit: EVERY_HIT })
}

fn read_filters(filters: Option<&SearchFilters>) -> (r: (usize, usize, bool))
    ensures
        r.0 == limit_of(
            match filters {
                Some(f) => Some(f@),
                None => None,
            },
        ),
        r.1 == offset_of(
            match filters {
                Some(f) => Some(f@),
                None => None,
            },
        ),
        r.2 == (single_file_of(
            match filters {
                Some(f) => Some(f@),
                None => None,
            },
        ) is Some),
{
    match filters {
        Some(f) => {
            let limit: usize = match f.max_results {
                Some(n) => n,
                None => DEFAULT_MAX_RESULTS,
            };
            let offset: usize = match f.offset {
                Some(n) => n,
                None => 0,
            };
            (limit, offset, f.file_path.is_some())
        },
        None => (DEFAULT_MAX_RESULTS, 0, false),
    }
}

fn names_path(results: &Vec<SearchResult>, path: &String) -> (r: bool)
    ensures
        r == has_path(result_views(results@), path@),
{
    let mut i: usize = 0;
    while i < results.len()
        invariant
            i <= results.len(),
            forall|k: int| 0 <= k < i ==> (#[trigger] result_views(results@)[k]).file.path != path@,
        decreases results.len() - i,
    {
        if results[i].file.path == *path {
            proof {
                assert(result_views(results@)[i as int].file.path == path@);
            }
            return true;
        }
        i += 1;
    }
    false
}

/// Adds to the answers of the store what the scan found beside them.
pub fn supplement(stored: Vec<SearchResult>, scanned: Vec<SearchResult>) -> (r: Vec<SearchResult>)
    ensures
        result_views(r@) == result_views(stored@) + not_among(
            result_views(scanned@),
            result_views(stored@),
        ),
{
    let ghost all = result_views(scanned@);
    let ghost base = result_views(stored@);
    let mut extra: Vec<SearchResult> = Vec::new();
    proof {
        assert(all.take(0) =~= Seq::<SearchResultView>::empty());
    }
    for result in it: scanned
        invariant
            all == result_views(it.seq()),
            base == result_views(stored@),
            result_views(extra@) == not_among(all.take(it.index() as int), base),
    {
        proof {
            let i = it.index() as int;
            assert(all.take(i + 1).drop_last() =~= all.take(i));
            assert(all.take(i + 1).last() == result@);
        }
        if !names_path(&stored, &result.file.path) {
            let ghost before = result_views(extra@);
            extra.push(result);
            proof {
                assert(result_views(extra@) =~= before.push(result@));
            }
        }
    }
    proof {
        assert(all.take(all.len() as int) =~= all);
    }
    let mut merged = stored;
    let ghost kept_extra = result_views(extra@);
    merged.append(&mut extra);
    proof {
        assert(result_views(merged@) =~= base + kept_extra);
    }
    merged
}

/// Takes out the results that lie in excluded folders.
pub fn hide_excluded(results: Vec<SearchResult>, excluded: &Vec<String>) -> (r: Vec<SearchResult>)
    ensures
        result_views(r@) == visible(result_views(results@), views(excluded@)),
{
    let ghost all = result_views(results@);
    let mut out: Vec<SearchResult> = Vec::new();
    proof {
        assert(all.take(0) =~= Seq::<SearchResultView>::empty());
    }
    for result in it: results
        invariant
            all == result_views(it.seq()),
            result_views(out@) == visible(all.take(it.index() as int), views(excluded@)),
    {
        proof {
            let i = it.index() as int;
            assert(all.take(i + 1).drop_last() =~= all.take(i));
            assert(all.take(i + 1).last() == result@);
        }
        if !is_excluded_path(excluded, result.file.path.as_str()) {
            let ghost before = result_views(out@);
            out.push(result);
            proof {
                assert(result_views(out@) =~= before.push(result@));
            }
        }
    }
    proof {
        assert(all.take(all.len() as int) =~= all);
    }
    out
}

/// Cuts the page out of the results.
pub fn paginate(full: Vec<SearchResult>, offset: usize, limit: usize) -> (r: Vec<SearchResult>)
    ensures
        result_views(r@) == page(result_views(full@), offset, limit),
{
    let ghost all = result_views(full@);
    let start: usize = if offset < full.len() {
        offset
    } else {
        full.len()
    };
    let mut whole = full;
    let mut rest = whole.split_off(start);
    if limit < rest.len() {
        rest.truncate(limit);
    }
    proof {
        assert(result_views(rest@) =~= page(all, offset, limit));
    }
    rest
}

/// The results of a search before they are cut into pages.
pub fn gather_results(
    query: &str,
    filters: Option<&SearchFilters>,
    files: &Vec<FileData>,
    excluded: &Vec<String>,
    index_hits: Option<Vec<SearchResult>>,
) -> (r: Vec<SearchResult>)
    ensures
        result_views(r@) == full_results(
            query@,
            file_views(files@),
            views(excluded@),
            match index_hits {
                Some(hits) => Some(result_views(hits@)),
                None => None,
            },
            match filters {
                Some(f) => Some(f@),
                None => None,
            },
        ),
{
    let single: Option<&String> = match filters {
        Some(f) => match &f.file_path {
            Some(p) => Some(p),
            None => None,
        },
        None => None,
    };
    let every = Some(files.len());
    let found: Vec<SearchResult> = match single {
        Some(path) => {
            match search_direct_content(query, files, every, Some(path.as_str())) {
                Ok(results) => results,
                Err(_) => Vec::new(),
            }
        },
        None => {
            let stored: Vec<SearchResult> = match index_hits {
                Some(hits) => hits,
                None => {
                    let none: Vec<SearchResult> = Vec::new();
                    proof {
                        assert(result_views(none@) =~= Seq::<SearchResultView>::empty());
                    }
                    none
                },
            };
            if stored.len() >= MIN_INDEX_CANDIDATES {
                stored
            } else {
                let scanned = match search_direct_content(query, files, every, None) {
                    Ok(results) => results,
                    Err(_) => Vec::new(),
                };
                supplement(stored, scanned)
            }
        },
    };
    let shown = if single.is_some() {
        found
    } else {
        hide_excluded(found, excluded)
    };
    match filters {
        Some(f) => apply_filters(shown, f),
        None => shown,
    }
}

/// Answers a query.
///
/// `index_hits` is what the index store answered to [`index_request`], or
/// `None` where it was not asked, could not be reached or failed: the
/// search then rests on the scan alone and still answers. The query is
/// recorded in the ledger with the number of results on the page, unless it
/// is blank or held to one document. Nothing else of the state changes.
pub fn search_index(
    query: &str,
    filters: Option<&SearchFilters>,
    state: &mut AppState,
    index_hits: Option<Vec<SearchResult>>,
    now: Timestamp,
) -> (r: Vec<SearchResult>)
    ensures
        result_views(r@) == search_results(
            query@,
            file_views(old(state).index@),
            views(old(state).excluded_folders@),
            match index_hits {
                Some(hits) => Some(result_views(hits@)),
                None => None,
            },
            match filters {
                Some(f) => Some(f@),
                None => None,
            },
        ),
        final(state).search_history@ == (if is_blank(query@) || single_file_of(
            match filters {
                Some(f) => Some(f@),
                None => None,
            },
        ) is Some {
            old(state).search_history@
        } else {
            after_add(old(state).search_history@, query@, r.len(), now)
        }),
        final(state).index == old(state).index,
        final(state).watched_folders == old(state).watched_folders,
        final(state).excluded_folders == old(state).excluded_folders,
        final(state).data_dir == old(state).data_dir,
{
    let chars = chars_of(query);
    if chars_are_blank(&chars) {
        let none: Vec<SearchResult> = Vec::new();
        proof {
            assert(result_views(none@) =~= Seq::<SearchResultView>::empty());
        }
        return none;
    }
    let (limit, offset, single) = read_filters(filters);
    let full = gather_results(query, filters, &state.index, &state.excluded_folders, index_hits);
    let shown = paginate(full, offset, limit);
    if !single {
        state.search_history.add(string_of(&chars), shown.len(), now);
    }
    shown
}

// ---------------------------------------------------------------------------
// What holds of a search
// ---------------------------------------------------------------------------

/// A page that begins within the results holds `limit` of them or all that
/// are left, whichever is fewer, and they are the results from `offset` on,
/// in the order of the merge.
pub proof fn law_page(full: Seq<SearchResultView>, offset: usize, limit: usize)
    requires
        offset < full.len(),
    ensures
        page(full, offset, limit).len() == (if limit < full.len() - offset {
            limit as int
        } else {
            full.len() - offset
        }),
        forall|i: int|
            0 <= i < page(full, offset, limit).len() ==> #[trigger] page(full, offset, limit)[i]
                == full[offset + i],
{
}

/// A search that is not blank answers with a page of its results: where
/// the page begins within them, it holds `limit` results or all that are
/// left behind `offset`, whichever is fewer, and they are the results from
/// `offset` on in the order of the merge. Filters and exclusion have been
/// laid over the results before the page is cut.
pub proof fn law_search_is_a_page(
    query: Seq<char>,
    files: Seq<FileDataView>,
    excluded: Seq<Seq<char>>,
    index_hits: Option<Seq<SearchResultView>>,
    filters: Option<FiltersView>,
)
    requires
        !is_blank(query),
        offset_of(filters) < full_results(query, files, excluded, index_hits, filters).len(),
    ensures
        ({
            let full = full_results(query, files, excluded, index_hits, filters);
            let shown = search_results(query, files, excluded, index_hits, filters);
            let offset = offset_of(filters);
            let limit = limit_of(filters);
            &&& shown.len() == (if limit < full.len() - offset {
                limit as int
            } else {
                full.len() - offset
            })
            &&& forall|i: int| 0 <= i < shown.len() ==> #[trigger] shown[i] == full[offset + i]
        }),
{
    law_page(
        full_results(query, files, excluded, index_hits, filters),
        offset_of(filters),
        limit_of(filters),
    );
}

/// A page that begins behind the results is empty.
pub proof fn law_page_past_the_end(full: Seq<SearchResultView>, offset: usize, limit: usize)
    requires
        offset >= full.len(),
    ensures
        page(full, offset, limit).len() == 0,
{
}

/// Pages that follow each other make up the results: nothing is lost and
/// nothing shown twice.
pub proof fn law_pages_join(full: Seq<SearchResultView>, offset: usize, limit: usize)
    requires
        offset + limit <= usize::MAX,
    ensures
        page(full, 0, offset) + page(full, offset, limit) == page(
            full,
            0,
            (offset + limit) as usize,
        ),
{
    assert(page(full, 0, offset) + page(full, offset, limit) =~= page(
        full,
        0,
        (offset + limit) as usize,
    ));
}

/// What the scan adds names no document that the store named.
pub proof fn law_supplement_has_no_duplicates(
    extra: Seq<SearchResultView>,
    base: Seq<SearchResultView>,
    i: int,
)
    requires
        0 <= i < not_among(extra, base).len(),
    ensures
        !has_path(base, not_among(extra, base)[i].file.path),
        extra.contains(not_among(extra, base)[i]),
    decreases extra.len(),
{
    let shorter = extra.drop_last();
    if has_path(base, extra.last().file.path) {
        law_supplement_has_no_duplicates(shorter, base, i);
        let x = not_among(shorter, base)[i];
        let k = choose|k: int| 0 <= k < shorter.len() && shorter[k] == x;
        assert(extra[k] == x);
    } else if i < not_among(shorter, base).len() {
        law_supplement_has_no_duplicates(shorter, base, i);
        let x = not_among(shorter, base)[i];
        let k = choose|k: int| 0 <= k < shorter.len() && shorter[k] == x;
        assert(extra[k] == x);
    } else {
        assert(extra[extra.len() - 1] == extra.last());
    }
}

/// No result that is shown lies in an excluded folder.
pub proof fn law_visible_hides_excluded(
    results: Seq<SearchResultView>,
    excluded: Seq<Seq<char>>,
    i: int,
)
    requires
        0 <= i < visible(results, excluded).len(),
    ensures
        !excluded_by(excluded, visible(results, excluded)[i].file.path),
    decreases results.len(),
{
    let shorter = results.drop_last();
    if excluded_by(excluded, results.last().file.path) {
        law_visible_hides_excluded(shorter, excluded, i);
    } else if i < visible(shorter, excluded).len() {
        law_visible_hides_excluded(shorter, excluded, i);
    }
}

} // verus!
