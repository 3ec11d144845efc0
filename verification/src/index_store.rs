//! What is asked of the index store, and what is made of its answers.
//!
//! The store itself is someone else's: it is asked with a text and answers
//! with rows. Which texts are tried and how a row becomes a result is
//! decided here.

use vstd::prelude::*;
use crate::filters::kept;
use crate::folders::{excluded_by, is_excluded_path};
use crate::models::{
    match_views, result_views, FileData, FileDataView, Match, MatchView, SearchResult,
    SearchResultView, Timestamp,
};
use crate::text::{
    all_ascii, append_chars, chars_are_ascii, chars_of, contains_chars, is_substring,
    starts_with_chars, string_of, views,
};

verus! {

/// How many results a store with typo tolerance gives at most.
pub const STORE_RESULT_LIMIT: usize = 100;

/// Whether a query uses the syntax of the store: an operator between
/// blanks, a quote, a wild card, a field, or a sign before a word.
pub open spec fn uses_advanced_syntax(query: Seq<char>) -> bool {
    ||| is_substring(" AND "@, query)
    ||| is_substring(" OR "@, query)
    ||| is_substring(" NOT "@, query)
    ||| is_substring("\""@, query)
    ||| is_substring("*"@, query)
    ||| is_substring("?"@, query)
    ||| is_substring(":"@, query)
    ||| "+"@.is_prefix_of(query)
    ||| "-"@.is_prefix_of(query)
    ||| is_substring(" +"@, query)
    ||| is_substring(" -"@, query)
}

/// The texts that are tried on a store with typo tolerance, in their
/// order: the query as it is where it is not pure ASCII or uses the syntax
/// of the store; else the query with one typo allowed, and then as it is.
pub open spec fn query_attempts(query: Seq<char>) -> Seq<Seq<char>> {
    if !all_ascii(query) || uses_advanced_syntax(query) {
        seq![query]
    } else {
        seq![query + "~1"@, query]
    }
}

fn holds(query: &Vec<char>, part: &str) -> (r: bool)
    ensures
        r == is_substring(part@, query@),
{
    contains_chars(query, &chars_of(part))
}

fn begins(query: &Vec<char>, part: &str) -> (r: bool)
    ensures
        r == part@.is_prefix_of(query@),
{
    starts_with_chars(query, &chars_of(part))
}

/// Computes [`query_attempts`].
pub fn fuzzy_query_attempts(query: &str) -> (r: Vec<String>)
    ensures
        views(r@) == query_attempts(query@),
{
    let q = chars_of(query);
    let advanced = holds(&q, " AND ") || holds(&q, " OR ") || holds(&q, " NOT ") || holds(&q, "\"")
        || holds(&q, "*") || holds(&q, "?") || holds(&q, ":") || begins(&q, "+") || begins(
        &q,
        "-",
    ) || holds(&q, " +") || holds(&q, " -");
    let mut attempts: Vec<String> = Vec::new();
    if !chars_are_ascii(&q) || advanced {
        attempts.push(string_of(&q));
        proof {
            assert(views(attempts@) =~= seq![query@]);
        }
    } else {
        let mut fuzzy = chars_of(query);
        append_chars(&mut fuzzy, &chars_of("~1"));
        attempts.push(string_of(&fuzzy));
        attempts.push(string_of(&q));
        proof {
            assert(views(attempts@) =~= seq![query@ + "~1"@, query@]);
        }
    }
    attempts
}

/// The results that have a match, in their order, `limit` of them at most.
pub open spec fn with_matches(results: Seq<SearchResultView>, limit: nat) -> Seq<SearchResultView>
    decreases results.len(),
{
    if results.len() == 0 {
        Seq::empty()
    } else {
        let before = with_matches(results.drop_last(), limit);
        if results.last().matches.len() > 0 && before.len() < limit {
            before.push(results.last())
        } else {
            before
        }
    }
}

/// Keeps of the answers of a store those that show a match, a hundred at
/// most.
pub fn keep_with_matches(results: Vec<SearchResult>) -> (r: Vec<SearchResult>)
    ensures
        result_views(r@) == with_matches(result_views(results@), STORE_RESULT_LIMIT as nat),
{
    let ghost all = result_views(results@);
    let mut out: Vec<SearchResult> = Vec::new();
    proof {
        assert(all.take(0) =~= Seq::<SearchResultView>::empty());
    }
    for result in it: results
        invariant
            all == result_views(it.seq()),
            result_views(out@) == with_matches(
                all.take(it.index() as int),
                STORE_RESULT_LIMIT as nat,
            ),
    {
        proof {
            let i = it.index() as int;
            assert(all.take(i + 1).drop_last() =~= all.take(i));
            assert(all.take(i + 1).last() == result@);
        }
        if result.matches.len() > 0 && out.len() < STORE_RESULT_LIMIT {
            let ghost before = result_views(out@);
            out.push(result);
            proof {
                assert(result_views(out@) =~= before.push(result@));
            }
        }
    }
    proof {
        assert(all.take(all.len() as int) =~= all);
    }
    out
}

/// A row of the full-text store: the path, the name and the kind of a
/// document that answers the query.
#[derive(Debug)]
pub struct StoredRow {
    pub path: String,
    pub name: String,
    pub file_type: String,
}

/// The result that a row of the store becomes: the document without its
/// size and text, dated `now`; a single match that names the query; and
/// the score of a plain hit.
pub open spec fn stored_result(
    path: Seq<char>,
    name: Seq<char>,
    file_type: Seq<char>,
    query: Seq<char>,
    now: Timestamp,
) -> SearchResultView {
    SearchResultView {
        file: FileDataView {
            path,
            name,
            size: 0,
            last_modified: now,
            file_type,
            content: Seq::empty(),
        },
        matches: seq![
            MatchView { text: query, index: 0, context: "Match found for '"@ + query + "'"@ },
        ],
        score_tenths: 10,
    }
}

/// Computes [`stored_result`].
pub fn result_of_row(row: StoredRow, query: &str, now: Timestamp) -> (r: SearchResult)
    ensures
        r@ == stored_result(row.path@, row.name@, row.file_type@, query@, now),
{
    let mut context = chars_of("Match found for '");
    append_chars(&mut context, &chars_of(query));
    append_chars(&mut context, &chars_of("'"));
    let mut matches: Vec<Match> = Vec::new();
    matches.push(Match { text: string_of(&chars_of(query)), index: 0, context: string_of(&context) });
    let r = SearchResult {
        file: FileData {
            path: row.path,
            name: row.name,
            size: 0,
            last_modified: now,
            file_type: row.file_type,
            content: String::new(),
        },
        matches,
        score_tenths: 10,
    };
    proof {
        assert(r@.matches =~= stored_result(
            row.path@,
            row.name@,
            row.file_type@,
            query@,
            now,
        ).matches);
    }
    r
}

/// The results of the rows whose documents lie in no excluded folder.
pub open spec fn stored_results(
    rows: Seq<StoredRow>,
    query: Seq<char>,
    excluded: Seq<Seq<char>>,
    now: Timestamp,
) -> Seq<SearchResultView>
    decreases rows.len(),
{
    if rows.len() == 0 {
        Seq::empty()
    } else {
        let before = stored_results(rows.drop_last(), query, excluded, now);
        let row = rows.last();
        if excluded_by(excluded, row.path@) {
            before
        } else {
            before.push(stored_result(row.path@, row.name@, row.file_type@, query, now))
        }
    }
}

/// Makes results of the rows that the full-text store answered with,
/// leaving out what lies in excluded folders.
pub fn search_fts5(rows: Vec<StoredRow>, query: &str, excluded_folders: &Vec<String>, now: Timestamp) -> (r:
    Vec<SearchResult>)
    ensures
        result_views(r@) == stored_results(rows@, query@, views(excluded_folders@), now),
{
    let ghost all = rows@;
    let mut out: Vec<SearchResult> = Vec::new();
    proof {
        assert(all.take(0) =~= Seq::<StoredRow>::empty());
    }
    for row in it: rows
        invariant
            all == it.seq(),
            result_views(out@) == stored_results(
                all.take(it.index() as int),
                query@,
                views(excluded_folders@),
                now,
            ),
    {
        proof {
            let i = it.index() as int;
            assert(all.take(i + 1).drop_last() =~= all.take(i));
            assert(all.take(i + 1).last() == row);
        }
        if !is_excluded_path(excluded_folders, row.path.as_str()) {
            let ghost before = result_views(out@);
            let result = result_of_row(row, query, now);
            out.push(result);
            proof {
                assert(result_views(out@) =~= before.push(result@));
            }
        }
    }
    proof {
        assert(all.take(all.len() as int) =~= all);
    }
    out
}

} // verus!
