//! A search names each document once.
//!
//! The store answers first and the scan adds to it; exclusion, filters and
//! the page only take results away. So where the store names no document
//! twice and no path stands twice in the table, no result of a search does.

use vstd::prelude::*;
use crate::coordinator::{
    candidates, full_results, has_path, law_supplement_has_no_duplicates, not_among, page,
    search_results, single_file_of, visible, MIN_INDEX_CANDIDATES,
};
use crate::direct::{
    direct_hit, direct_results, insert_ranked, ranked, scan_hits, scan_query, ScanQueryView,
};
use crate::filters::{kept, passes, FiltersView};
use crate::folders::excluded_by;
use crate::models::{FileDataView, SearchResultView};
use crate::scanner::paths_are_unique;

verus! {

/// No document is named by two of the results.
pub open spec fn names_each_once(results: Seq<SearchResultView>) -> bool {
    forall|i: int, j: int|
        0 <= i < j < results.len() ==> (#[trigger] results[i]).file.path != (
        #[trigger] results[j]).file.path
}

/// The same, said of the last result and of those before it.
pub open spec fn once(results: Seq<SearchResultView>) -> bool
    decreases results.len(),
{
    results.len() == 0 || (once(results.drop_last()) && !has_path(
        results.drop_last(),
        results.last().file.path,
    ))
}

/// The two ways of saying it say the same.
pub proof fn lemma_once(s: Seq<SearchResultView>)
    ensures
        once(s) == names_each_once(s),
    decreases s.len(),
{
    if s.len() > 0 {
        let init = s.drop_last();
        lemma_once(init);
        if once(s) {
            assert forall|i: int, j: int| 0 <= i < j < s.len() implies (#[trigger] s[i]).file.path
                != (#[trigger] s[j]).file.path by {
                if j < init.len() {
                    assert(init[i] == s[i] && init[j] == s[j]);
                } else if s[i].file.path == s[j].file.path {
                    assert(init[i].file.path == s.last().file.path);
                }
            }
        }
        if names_each_once(s) {
            assert forall|i: int, j: int| 0 <= i < j < init.len() implies (
            #[trigger] init[i]).file.path != (#[trigger] init[j]).file.path by {
                assert(init[i] == s[i] && init[j] == s[j]);
            }
            if has_path(init, s.last().file.path) {
                let k = choose|k: int|
                    0 <= k < init.len() && (#[trigger] init[k]).file.path == s.last().file.path;
                assert(s[k] == init[k]);
                assert(s[s.len() - 1] == s.last());
            }
        }
    }
}

// ---------------------------------------------------------------------------
// Taking results away
// ---------------------------------------------------------------------------

/// A document that is named after results were taken away was named before.
pub proof fn lemma_filter_names(
    s: Seq<SearchResultView>,
    pred: spec_fn(SearchResultView) -> bool,
    p: Seq<char>,
)
    requires
        has_path(s.filter(pred), p),
    ensures
        has_path(s, p),
    decreases s.len(),
{
    reveal(Seq::filter);
    if s.len() > 0 {
        let init = s.drop_last();
        let out = s.filter(pred);
        let k = choose|k: int| 0 <= k < out.len() && (#[trigger] out[k]).file.path == p;
        if pred(s.last()) && k == init.filter(pred).len() {
            assert(s[s.len() - 1].file.path == p);
        } else {
            assert(init.filter(pred)[k].file.path == p);
            lemma_filter_names(init, pred, p);
            let m = choose|m: int| 0 <= m < init.len() && (#[trigger] init[m]).file.path == p;
            assert(s[m] == init[m]);
        }
    }
}

/// Taking results away leaves each document named once.
pub proof fn lemma_filter_once(s: Seq<SearchResultView>, pred: spec_fn(SearchResultView) -> bool)
    requires
        once(s),
    ensures
        once(s.filter(pred)),
    decreases s.len(),
{
    reveal(Seq::filter);
    if s.len() > 0 {
        let init = s.drop_last();
        lemma_filter_once(init, pred);
        if pred(s.last()) {
            let out = init.filter(pred).push(s.last());
            assert(out.drop_last() =~= init.filter(pred));
            if has_path(init.filter(pred), s.last().file.path) {
                lemma_filter_names(init, pred, s.last().file.path);
            }
        }
    }
}

/// What the scan adds to the store's answer is what is left of the scan
/// without the documents that the store named.
pub proof fn lemma_not_among_is_a_filter(
    extra: Seq<SearchResultView>,
    base: Seq<SearchResultView>,
)
    ensures
        not_among(extra, base) == extra.filter(|r: SearchResultView| !has_path(base, r.file.path)),
    decreases extra.len(),
{
    reveal(Seq::filter);
    if extra.len() > 0 {
        lemma_not_among_is_a_filter(extra.drop_last(), base);
    }
}

/// The results that are shown are the results without those in excluded
/// folders.
pub proof fn lemma_visible_is_a_filter(results: Seq<SearchResultView>, excluded: Seq<Seq<char>>)
    ensures
        visible(results, excluded) == results.filter(
            |r: SearchResultView| !excluded_by(excluded, r.file.path),
        ),
    decreases results.len(),
{
    reveal(Seq::filter);
    if results.len() > 0 {
        lemma_visible_is_a_filter(results.drop_last(), excluded);
    }
}

/// The results that are kept are the results without those that the
/// filters turn down.
pub proof fn lemma_kept_is_a_filter(results: Seq<SearchResultView>, f: FiltersView)
    ensures
        kept(results, f) == results.filter(|r: SearchResultView| passes(r.file, f)),
    decreases results.len(),
{
    reveal(Seq::filter);
    if results.len() > 0 {
        lemma_kept_is_a_filter(results.drop_last(), f);
    }
}

// ---------------------------------------------------------------------------
// The scan
// ---------------------------------------------------------------------------

/// A document that the scan names is in the table.
pub proof fn lemma_scan_names(files: Seq<FileDataView>, q: ScanQueryView, cap: nat, p: Seq<char>)
    requires
        has_path(scan_hits(files, q, cap), p),
    ensures
        exists|i: int| 0 <= i < files.len() && (#[trigger] files[i]).path == p,
    decreases files.len(),
{
    reveal(direct_hit);
    if files.len() > 0 {
        let init = files.drop_last();
        let before = scan_hits(init, q, cap);
        let out = scan_hits(files, q, cap);
        let k = choose|k: int| 0 <= k < out.len() && (#[trigger] out[k]).file.path == p;
        if k < before.len() {
            assert(before[k] == out[k]);
            lemma_scan_names(init, q, cap, p);
            let m = choose|m: int| 0 <= m < init.len() && (#[trigger] init[m]).path == p;
            assert(files[m] == init[m]);
        } else {
            assert(out[k].file == files.last());
            assert(files[files.len() - 1].path == p);
        }
    }
}

/// Where no path stands twice in the table, the scan names each document
/// once.
pub proof fn lemma_scan_once(files: Seq<FileDataView>, q: ScanQueryView, cap: nat)
    requires
        paths_are_unique(files),
    ensures
        once(scan_hits(files, q, cap)),
    decreases files.len(),
{
    reveal(direct_hit);
    if files.len() > 0 {
        let init = files.drop_last();
        assert(paths_are_unique(init)) by {
            assert forall|i: int, j: int| 0 <= i < j < init.len() implies (#[trigger] init[i]).path
                != (#[trigger] init[j]).path by {
                assert(init[i] == files[i] && init[j] == files[j]);
            }
        }
        lemma_scan_once(init, q, cap);
        let before = scan_hits(init, q, cap);
        let out = scan_hits(files, q, cap);
        if out.len() > before.len() {
            assert(out.drop_last() =~= before);
            assert(out.last().file == files.last());
            if has_path(before, files.last().path) {
                lemma_scan_names(init, q, cap, files.last().path);
                let m = choose|m: int|
                    0 <= m < init.len() && (#[trigger] init[m]).path == files.last().path;
                assert(files[m] == init[m]);
                assert(files[files.len() - 1] == files.last());
            }
        }
    }
}

/// Ranking one more result names what was named, and that result.
pub proof fn lemma_insert_ranked_names(
    list: Seq<SearchResultView>,
    x: SearchResultView,
    p: Seq<char>,
)
    requires
        has_path(insert_ranked(list, x), p),
    ensures
        has_path(list, p) || x.file.path == p,
    decreases list.len(),
{
    let out = insert_ranked(list, x);
    let k = choose|k: int| 0 <= k < out.len() && (#[trigger] out[k]).file.path == p;
    if list.len() == 0 {
    } else if list.last().score_tenths >= x.score_tenths {
        if k < list.len() {
            assert(list[k].file.path == p);
        }
    } else {
        let init = list.drop_last();
        let inner = insert_ranked(init, x);
        if k < inner.len() {
            assert(inner[k].file.path == p);
            lemma_insert_ranked_names(init, x, p);
            if has_path(init, p) {
                let m = choose|m: int| 0 <= m < init.len() && (#[trigger] init[m]).file.path == p;
                assert(list[m] == init[m]);
            }
        } else {
            assert(list[list.len() - 1].file.path == p);
        }
    }
}

/// Ranking one more result, of a document not yet named, leaves each
/// document named once.
pub proof fn lemma_insert_ranked_once(list: Seq<SearchResultView>, x: SearchResultView)
    requires
        once(list),
        !has_path(list, x.file.path),
    ensures
        once(insert_ranked(list, x)),
    decreases list.len(),
{
    if list.len() == 0 {
        assert(seq![x].drop_last() =~= Seq::<SearchResultView>::empty());
        assert(once(Seq::<SearchResultView>::empty()));
    } else if list.last().score_tenths >= x.score_tenths {
        assert(list.push(x).drop_last() =~= list);
    } else {
        let init = list.drop_last();
        let inner = insert_ranked(init, x);
        if has_path(init, x.file.path) {
            let m = choose|m: int|
                0 <= m < init.len() && (#[trigger] init[m]).file.path == x.file.path;
            assert(list[m] == init[m]);
        }
        lemma_insert_ranked_once(init, x);
        assert(inner.push(list.last()).drop_last() =~= inner);
        if has_path(inner, list.last().file.path) {
            lemma_insert_ranked_names(init, x, list.last().file.path);
            assert(list[list.len() - 1] == list.last());
        }
    }
}

/// Ranking names what was named.
pub proof fn lemma_ranked_names(hits: Seq<SearchResultView>, p: Seq<char>)
    requires
        has_path(ranked(hits), p),
    ensures
        has_path(hits, p),
    decreases hits.len(),
{
    if hits.len() > 0 {
        let init = hits.drop_last();
        lemma_insert_ranked_names(ranked(init), hits.last(), p);
        if has_path(ranked(init), p) {
            lemma_ranked_names(init, p);
            let m = choose|m: int| 0 <= m < init.len() && (#[trigger] init[m]).file.path == p;
            assert(hits[m] == init[m]);
        } else {
            assert(hits[hits.len() - 1].file.path == p);
        }
    }
}

/// Ranking leaves each document named once.
pub proof fn lemma_ranked_once(hits: Seq<SearchResultView>)
    requires
        once(hits),
    ensures
        once(ranked(hits)),
    decreases hits.len(),
{
    if hits.len() > 0 {
        let init = hits.drop_last();
        lemma_ranked_once(init);
        if has_path(ranked(init), hits.last().file.path) {
            lemma_ranked_names(init, hits.last().file.path);
        }
        lemma_insert_ranked_once(ranked(init), hits.last());
    }
}

/// Where no path stands twice in the table, a direct scan names each
/// document once.
pub proof fn law_scan_names_each_document_once(
    query: Seq<char>,
    files: Seq<FileDataView>,
    max_results: Option<usize>,
    only_path: Option<Seq<char>>,
)
    requires
        paths_are_unique(files),
    ensures
        names_each_once(direct_results(query, files, max_results, only_path)),
{
    let cap = match max_results {
        Some(n) => n,
        None => crate::direct::DEFAULT_MAX_RESULTS,
    };
    let q = scan_query(query, only_path);
    lemma_scan_once(files, q, cap as nat);
    lemma_ranked_once(scan_hits(files, q, cap as nat));
    lemma_once(direct_results(query, files, max_results, only_path));
}

// ---------------------------------------------------------------------------
// The search
// ---------------------------------------------------------------------------

/// The answers of the store stand first among the candidates, each in its
/// place and as the store gave it; what follows names none of their
/// documents. So a document that the store and the scan both found is
/// there once, where the store put it and with the score of the store.
pub proof fn law_store_hits_stand_first(
    query: Seq<char>,
    files: Seq<FileDataView>,
    hits: Seq<SearchResultView>,
    i: int,
)
    requires
        0 <= i < candidates(query, files, Some(hits), None).len(),
    ensures
        hits.len() <= candidates(query, files, Some(hits), None).len(),
        i < hits.len() ==> candidates(query, files, Some(hits), None)[i] == hits[i],
        i >= hits.len() ==> !has_path(
            hits,
            candidates(query, files, Some(hits), None)[i].file.path,
        ),
{
    if hits.len() < MIN_INDEX_CANDIDATES && i >= hits.len() {
        let extra = direct_results(query, files, Some(files.len() as usize), None);
        law_supplement_has_no_duplicates(extra, hits, i - hits.len());
    }
}

/// Where the store names no document twice and no path stands twice in the
/// table, the candidates name each document once.
pub proof fn lemma_candidates_once(
    query: Seq<char>,
    files: Seq<FileDataView>,
    index_hits: Option<Seq<SearchResultView>>,
    single_file: Option<Seq<char>>,
)
    requires
        paths_are_unique(files),
        index_hits matches Some(hits) ==> names_each_once(hits),
    ensures
        names_each_once(candidates(query, files, index_hits, single_file)),
{
    let every = Some(files.len() as usize);
    match single_file {
        Some(path) => {
            law_scan_names_each_document_once(query, files, every, Some(path));
        },
        None => {
            let stored = match index_hits {
                Some(hits) => hits,
                None => Seq::empty(),
            };
            if stored.len() < MIN_INDEX_CANDIDATES {
                let extra = direct_results(query, files, every, None);
                let added = not_among(extra, stored);
                let all = stored + added;
                law_scan_names_each_document_once(query, files, every, None);
                lemma_once(extra);
                lemma_not_among_is_a_filter(extra, stored);
                lemma_filter_once(extra, |r: SearchResultView| !has_path(stored, r.file.path));
                lemma_once(added);
                assert forall|i: int, j: int| 0 <= i < j < all.len() implies (
                #[trigger] all[i]).file.path != (#[trigger] all[j]).file.path by {
                    if j < stored.len() {
                        assert(all[i] == stored[i] && all[j] == stored[j]);
                    } else if i >= stored.len() {
                        assert(all[i] == added[i - stored.len()]);
                        assert(all[j] == added[j - stored.len()]);
                    } else {
                        law_supplement_has_no_duplicates(extra, stored, j - stored.len());
                        assert(all[i] == stored[i]);
                        assert(all[j] == added[j - stored.len()]);
                    }
                }
            }
        },
    }
}

/// A search names each document once: where the store names no document
/// twice and no path stands twice in the table, no two results of a search
/// are of one document.
pub proof fn law_search_names_each_document_once(
    query: Seq<char>,
    files: Seq<FileDataView>,
    excluded: Seq<Seq<char>>,
    index_hits: Option<Seq<SearchResultView>>,
    filters: Option<FiltersView>,
)
    requires
        paths_are_unique(files),
        index_hits matches Some(hits) ==> names_each_once(hits),
    ensures
        names_each_once(full_results(query, files, excluded, index_hits, filters)),
        names_each_once(search_results(query, files, excluded, index_hits, filters)),
{
    let single = single_file_of(filters);
    let found = candidates(query, files, index_hits, single);
    lemma_candidates_once(query, files, index_hits, single);
    lemma_once(found);
    let shown = if single is Some {
        found
    } else {
        visible(found, excluded)
    };
    if single is None {
        lemma_visible_is_a_filter(found, excluded);
        lemma_filter_once(found, |r: SearchResultView| !excluded_by(excluded, r.file.path));
    }
    let full = full_results(query, files, excluded, index_hits, filters);
    match filters {
        Some(f) => {
            lemma_kept_is_a_filter(shown, f);
            lemma_filter_once(shown, |r: SearchResultView| passes(r.file, f));
        },
        None => {},
    }
    lemma_once(full);
    let answer = search_results(query, files, excluded, index_hits, filters);
    assert forall|i: int, j: int| 0 <= i < j < answer.len() implies (#[trigger] answer[i]).file.path
        != (#[trigger] answer[j]).file.path by {
        let shown_page = page(
            full,
            crate::coordinator::offset_of(filters),
            crate::coordinator::limit_of(filters),
        );
        assert(answer == shown_page);
    }
}

} // verus!
