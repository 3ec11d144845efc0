//! The filters that a caller lays over the results of a search.

use vstd::prelude::*;
use crate::models::{
    result_views, FileDataView, SearchFilters, SearchResult, SearchResultView, Timestamp,
};
use crate::text::{chars_of, starts_with_chars, views};

verus! {

/// What a [`SearchFilters`] holds, as mathematical values.
pub struct FiltersView {
    pub file_types: Option<Seq<Seq<char>>>,
    pub date_from: Option<Timestamp>,
    pub date_to: Option<Timestamp>,
    pub min_size: Option<u64>,
    pub max_size: Option<u64>,
    pub folder_path: Option<Seq<char>>,
    pub file_path: Option<Seq<char>>,
    pub max_results: Option<usize>,
    pub offset: Option<usize>,
}

impl View for SearchFilters {
    type V = FiltersView;

    open spec fn view(&self) -> FiltersView {
        FiltersView {
            file_types: match self.file_types {
                Some(types) => Some(views(types@)),
                None => None,
            },
            date_from: self.date_from,
            date_to: self.date_to,
            min_size: self.min_size,
            max_size: self.max_size,
            folder_path: match self.folder_path {
                Some(p) => Some(p@),
                None => None,
            },
            file_path: match self.file_path {
                Some(p) => Some(p@),
                None => None,
            },
            max_results: self.max_results,
            offset: self.offset,
        }
    }
}

/// Whether a document passes every filter that is set: its type is one of
/// the types asked for (an empty list asks for none), it was not changed
/// before `date_from` nor after `date_to`, its size lies within the bounds,
/// and its path begins with `folder_path`.
pub open spec fn passes(file: FileDataView, f: FiltersView) -> bool {
    &&& (f.file_types matches Some(types) ==> types.len() == 0 || types.contains(file.file_type))
    &&& (f.date_from matches Some(from) ==> !file.last_modified.is_before(from))
    &&& (f.date_to matches Some(to) ==> !to.is_before(file.last_modified))
    &&& (f.min_size matches Some(min) ==> file.size >= min)
    &&& (f.max_size matches Some(max) ==> file.size <= max)
    &&& (f.folder_path matches Some(folder) ==> folder.is_prefix_of(file.path))
}

/// The results whose documents pass the filters, in their order.
pub open spec fn kept(results: Seq<SearchResultView>, f: FiltersView) -> Seq<SearchResultView>
    decreases results.len(),
{
    if results.len() == 0 {
        Seq::empty()
    } else if passes(results.last().file, f) {
        kept(results.drop_last(), f).push(results.last())
    } else {
        kept(results.drop_last(), f)
    }
}

fn type_is_listed(types: &Vec<String>, file_type: &String) -> (r: bool)
    ensures
        r == views(types@).contains(file_type@),
{
    let mut i: usize = 0;
    while i < types.len()
        invariant
            i <= types.len(),
            forall|k: int| 0 <= k < i ==> views(types@)[k] != file_type@,
        decreases types.len() - i,
    {
        if types[i] == *file_type {
            proof {
                assert(views(types@)[i as int] == file_type@);
            }
            return true;
        }
        proof {
            assert(views(types@)[i as int] == types@[i as int]@);
        }
        i += 1;
    }
    false
}

/// Whether a result passes the filters.
pub fn result_passes(result: &SearchResult, filters: &SearchFilters) -> (r: bool)
    ensures
        r == passes(result@.file, filters@),
{
    match &filters.file_types {
        Some(types) => {
            if types.len() > 0 && !type_is_listed(types, &result.file.file_type) {
                return false;
            }
        },
        None => {},
    }
    match &filters.date_from {
        Some(from) => {
            if result.file.last_modified.before(from) {
                return false;
            }
        },
        None => {},
    }
    match &filters.date_to {
        Some(to) => {
            if to.before(&result.file.last_modified) {
                return false;
            }
        },
        None => {},
    }
    match filters.min_size {
        Some(min) => {
            if result.file.size < min {
                return false;
            }
        },
        None => {},
    }
    match filters.max_size {
        Some(max) => {
            if result.file.size > max {
                return false;
            }
        },
        None => {},
    }
    match &filters.folder_path {
        Some(folder) => {
            if !starts_with_chars(
                &chars_of(result.file.path.as_str()),
                &chars_of(folder.as_str()),
            ) {
                return false;
            }
        },
        None => {},
    }
    true
}

/// Keeps the results that pass every filter, in their order.
pub fn apply_filters(results: Vec<SearchResult>, filters: &SearchFilters) -> (r: Vec<SearchResult>)
    ensures
        result_views(r@) == kept(result_views(results@), filters@),
{
    let ghost all = result_views(results@);
    let mut out: Vec<SearchResult> = Vec::new();
    proof {
        assert(all.take(0) =~= Seq::<SearchResultView>::empty());
    }
    for result in it: results
        invariant
            all == result_views(it.seq()),
            result_views(out@) == kept(all.take(it.index() as int), filters@),
    {
        proof {
            let i = it.index() as int;
            assert(all.take(i + 1).drop_last() =~= all.take(i));
            assert(all.take(i + 1).last() == result@);
        }
        if result_passes(&result, filters) {
            let ghost before = result_views(out@);
            out.push(result);
            proof {
                assert(result_views(out@) =~= before.push(result@));
            }
        }
    }
    proof {
        assert(all.take(all.len() as int) =~= all);
    }
    out
}

} // verus!
