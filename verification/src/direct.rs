//! The direct scan: answering a query by reading every document.
//!
//! A document answers where its name and its content together answer the
//! parsed query; a query without terms is looked for as a whole. The
//! documents are read in their order, and the scan stops taking results
//! once it holds as many as were asked for. The results are then ranked by
//! their score, and results of one score stay in the order of the documents.

use vstd::prelude::*;
use crate::context::{
    collect_matches, collect_matches_counted, lemma_occurrences_are_few, matches_of,
    recorded_places, MAX_RECORDED,
};
use crate::models::{
    file_views, result_views, FileData, FileDataView, SearchResult, SearchResultView,
};
use crate::query::{
    chars_match_query, parse_simple_query, parsed, query_matches, ParsedQuery, ParsedQueryView,
};
use crate::script::{chars_are_caseless, is_caseless};
use crate::text::{
    all_ascii, append_chars, ascii_lower, chars_are_ascii, chars_of, contains_chars,
    is_substring, lowercase_of, same_chars, str_to_lowercase, string_of, to_ascii_lower, views,
};

verus! {

/// How many results a scan gives where the caller names no number.
pub const DEFAULT_MAX_RESULTS: usize = 100;

// ---------------------------------------------------------------------------
// The test that ignores case
// ---------------------------------------------------------------------------

/// `needle` stands in `hay` at `i` up to the case of ASCII letters.
pub open spec fn occurs_folded_at(hay: Seq<char>, needle: Seq<char>, i: int) -> bool {
    &&& 0 <= i
    &&& i + needle.len() <= hay.len()
    &&& forall|k: int|
        0 <= k < needle.len() ==> ascii_lower(#[trigger] hay[i + k]) == ascii_lower(needle[k])
}

/// Whether `hay` holds `needle` when case is ignored; `needle` is taken to be
/// in lower case already. The empty term is held by every text. A plain
/// ASCII text is compared letter by letter, any other in its lower-case form.
pub open spec fn holds_ignoring_case(hay: Seq<char>, needle: Seq<char>) -> bool {
    if needle.len() == 0 {
        true
    } else if all_ascii(hay) {
        exists|i: int| occurs_folded_at(hay, needle, i)
    } else {
        is_substring(needle, lowercase_of(hay))
    }
}

fn folded_at(hay: &Vec<char>, needle: &Vec<char>, i: usize) -> (r: bool)
    requires
        i + needle.len() <= hay.len(),
    ensures
        r == occurs_folded_at(hay@, needle@, i as int),
{
    let mut k: usize = 0;
    while k < needle.len()
        invariant
            k <= needle.len(),
            i + needle.len() <= hay.len(),
            forall|j: int|
                0 <= j < k ==> ascii_lower(#[trigger] hay@[i + j]) == ascii_lower(needle@[j]),
        decreases needle.len() - k,
    {
        if to_ascii_lower(hay[i + k]) != to_ascii_lower(needle[k]) {
            return false;
        }
        k += 1;
    }
    true
}

/// Computes [`holds_ignoring_case`].
pub fn contains_ignore_case(haystack: &str, needle_lower: &str) -> (r: bool)
    ensures
        r == holds_ignoring_case(haystack@, needle_lower@),
{
    let hay = chars_of(haystack);
    let needle = chars_of(needle_lower);
    chars_hold_ignoring_case(&hay, haystack, &needle)
}

fn chars_hold_ignoring_case(hay: &Vec<char>, text: &str, needle: &Vec<char>) -> (r: bool)
    requires
        hay@ == text@,
    ensures
        r == holds_ignoring_case(hay@, needle@),
{
    if needle.len() == 0 {
        return true;
    }
    if chars_are_ascii(hay) {
        if needle.len() > hay.len() {
            return false;
        }
        let last: usize = hay.len() - needle.len();
        let mut i: usize = 0;
        while i <= last
            invariant
                last == hay.len() - needle.len(),
                0 < needle.len() <= hay.len(),
                all_ascii(hay@),
                forall|q: int| 0 <= q < i ==> !occurs_folded_at(hay@, needle@, q),
            decreases last + 1 - i,
        {
            if folded_at(hay, needle, i) {
                return true;
            }
            i += 1;
        }
        false
    } else {
        let lowered = str_to_lowercase(text);
        contains_chars(&chars_of(lowered.as_str()), needle)
    }
}

// ---------------------------------------------------------------------------
// Places in a text that is searched as it is
// ---------------------------------------------------------------------------

/// The text around a place in a text that is searched as it is shown.
pub fn get_context_around_match_fast(
    content: &str,
    match_byte_idx: usize,
    match_len: usize,
    context_chars: usize,
) -> (r: String)
    ensures
        r@ == crate::context::context_of(
            content@,
            match_byte_idx as int,
            match_len as int,
            context_chars as int,
        ),
{
    crate::context::get_context_around_match(content, match_byte_idx, match_len, context_chars)
}

/// The places of `query_lower` in a document whose content and name are at
/// hand in the form in which they are searched: up to five in the content,
/// or else the name, shown as `shown_name`, where it holds the term.
pub fn find_matches_fast(
    content_lower: &str,
    name_lower: &str,
    shown_name: &str,
    query_lower: &str,
) -> (r: Vec<crate::models::Match>)
    ensures
        crate::models::match_views(r@) == matches_of(
            content_lower@,
            content_lower@,
            name_lower@,
            shown_name@,
            query_lower@,
        ),
        r.len() <= MAX_RECORDED,
{
    let content = chars_of(content_lower);
    collect_matches(
        &content,
        &content,
        &chars_of(name_lower),
        &chars_of(shown_name),
        &chars_of(query_lower),
    )
}

// ---------------------------------------------------------------------------
// One document
// ---------------------------------------------------------------------------

/// A query made ready for the scan.
pub struct ScanQuery {
    /// The query as it is compared: as written for a script without case,
    /// else in lower case.
    pub text: String,
    /// Whether the query is written in a script without case.
    pub caseless: bool,
    /// The query taken apart.
    pub parsed: ParsedQuery,
    /// The one document that is searched, where only one is.
    pub only_path: Option<String>,
}

/// What a [`ScanQuery`] holds, as mathematical values.
pub struct ScanQueryView {
    pub text: Seq<char>,
    pub caseless: bool,
    pub parsed: ParsedQueryView,
    pub only_path: Option<Seq<char>>,
}

impl View for ScanQuery {
    type V = ScanQueryView;

    open spec fn view(&self) -> ScanQueryView {
        ScanQueryView {
            text: self.text@,
            caseless: self.caseless,
            parsed: self.parsed@,
            only_path: match self.only_path {
                Some(p) => Some(p@),
                None => None,
            },
        }
    }
}

/// The query as the scan uses it: left as written where its script has no
/// case, else brought to lower case, and then parsed.
pub open spec fn scan_query(query: Seq<char>, only_path: Option<Seq<char>>) -> ScanQueryView {
    let caseless = is_caseless(query);
    let text = if caseless {
        query
    } else {
        lowercase_of(query)
    };
    ScanQueryView { text, caseless, parsed: parsed(text), only_path }
}

/// Makes a query ready for the scan.
pub fn prepare_query(query: &str, file_path_filter: Option<&str>) -> (r: ScanQuery)
    ensures
        r@ == scan_query(
            query@,
            match file_path_filter {
                Some(p) => Some(p@),
                None => None,
            },
        ),
{
    let chars = chars_of(query);
    let caseless = chars_are_caseless(&chars);
    let text = if caseless {
        string_of(&chars)
    } else {
        str_to_lowercase(query)
    };
    let parsed = parse_simple_query(text.as_str());
    let only_path = match file_path_filter {
        Some(p) => Some(string_of(&chars_of(p))),
        None => None,
    };
    ScanQuery { text, caseless, parsed, only_path }
}

/// The term whose places are shown: the first required one, else the first
/// optional one, else the query as a whole.
pub open spec fn highlight_term(q: ScanQueryView) -> Seq<char> {
    if q.parsed.required_terms.len() > 0 {
        q.parsed.required_terms[0]
    } else if q.parsed.optional_terms.len() > 0 {
        q.parsed.optional_terms[0]
    } else {
        q.text
    }
}

/// Whether `text` holds the query as a whole.
pub open spec fn holds_query(text: Seq<char>, q: ScanQueryView) -> bool {
    if q.caseless {
        is_substring(q.text, text)
    } else {
        holds_ignoring_case(text, q.text)
    }
}

/// `text` as it is searched.
pub open spec fn searched_form(text: Seq<char>, q: ScanQueryView) -> Seq<char> {
    if q.caseless {
        text
    } else {
        lowercase_of(text)
    }
}

/// Whether the parsed query has a term of any kind.
pub open spec fn has_terms(parsed: ParsedQueryView) -> bool {
    parsed.required_terms.len() > 0 || parsed.optional_terms.len() > 0
        || parsed.excluded_terms.len() > 0 || parsed.exact_phrases.len() > 0
}

/// Whether a document answers the query. Where the parsed query has terms,
/// the name of the document, a blank and its content, as they are
/// searched, answer the parsed query. A query without terms is looked for
/// as a whole, in the content and in the name.
pub open spec fn answers(file: FileDataView, q: ScanQueryView) -> bool {
    if has_terms(q.parsed) {
        query_matches(
            searched_form(file.name, q) + seq![' '] + searched_form(file.content, q),
            q.parsed,
        )
    } else {
        holds_query(file.content, q) || holds_query(file.name, q)
    }
}

/// What the scan makes of one document, if it answers the query.
///
/// The document is passed over where another one is asked for, and where it
/// does not answer. Else it is a result, with the places of the highlighted
/// term as its matches, whether or not there are any. It scores 20 if its
/// name holds the highlighted term and 10 if not, and one more for each
/// place of the highlighted term that is recorded in its content. A match
/// that only names the file adds nothing.
#[verifier::opaque]
pub open spec fn direct_hit(file: FileDataView, q: ScanQueryView) -> Option<SearchResultView> {
    let content = searched_form(file.content, q);
    let name = searched_form(file.name, q);
    let term = highlight_term(q);
    if q.only_path is Some && q.only_path->0 != file.path {
        None
    } else if !answers(file, q) {
        None
    } else {
        Some(
            SearchResultView {
                file,
                matches: matches_of(content, content, name, file.name, term),
                score_tenths: ((if is_substring(term, name) {
                    20int
                } else {
                    10int
                }) + recorded_places(content, term)) as u32,
            },
        )
    }
}

/// A document that answers scores 10, or 20 where its name holds the
/// highlighted term, and one more for each place of that term that is
/// recorded in its content, of which there are five at most: so its score
/// lies between 10 and 15 or between 20 and 25.
pub proof fn law_score_of_a_hit(file: FileDataView, q: ScanQueryView)
    requires
        direct_hit(file, q) is Some,
    ensures
        ({
            let score = direct_hit(file, q)->0.score_tenths;
            let term = highlight_term(q);
            let in_name = is_substring(term, searched_form(file.name, q));
            let places = recorded_places(searched_form(file.content, q), term);
            &&& places <= MAX_RECORDED
            &&& in_name ==> score == 20 + places
            &&& !in_name ==> score == 10 + places
            &&& 10 <= score <= 15 || 20 <= score <= 25
        }),
{
    reveal(direct_hit);
    lemma_occurrences_are_few(
        searched_form(file.content, q),
        highlight_term(q),
        0,
        MAX_RECORDED as nat,
    );
}

/// A document is a result of the scan exactly when it answers the query
/// and, where one document is asked for, is that one.
pub proof fn law_hit_is_answer(file: FileDataView, q: ScanQueryView)
    ensures
        direct_hit(file, q) is Some <==> answers(file, q) && (q.only_path matches Some(p) ==> p
            == file.path),
        direct_hit(file, q) matches Some(hit) ==> hit.file == file,
{
    reveal(direct_hit);
}

fn holds_query_exec(text: &str, chars: &Vec<char>, q: &ScanQuery, qtext: &Vec<char>) -> (r: bool)
    requires
        chars@ == text@,
        qtext@ == q.text@,
    ensures
        r == holds_query(text@, q@),
{
    if q.caseless {
        contains_chars(chars, qtext)
    } else {
        chars_hold_ignoring_case(chars, text, qtext)
    }
}

fn searched_chars(text: &str, chars: &Vec<char>, q: &ScanQuery) -> (r: Vec<char>)
    requires
        chars@ == text@,
    ensures
        r@ == searched_form(text@, q@),
{
    if q.caseless {
        chars_of(text)
    } else {
        let lowered = str_to_lowercase(text);
        chars_of(lowered.as_str())
    }
}

/// Holds one document against the query, as [`direct_hit`] says.
pub fn scan_document(file: &FileData, q: &ScanQuery) -> (r: Option<SearchResult>)
    ensures
        match r {
            Some(hit) => direct_hit(file@, q@) == Some(hit@),
            None => direct_hit(file@, q@) is None,
        },
{
    reveal(direct_hit);
    match &q.only_path {
        Some(p) => {
            if !same_chars(&chars_of(p.as_str()), &chars_of(file.path.as_str())) {
                return None;
            }
        },
        None => {},
    }
    let qtext = chars_of(q.text.as_str());
    let content_chars = chars_of(file.content.as_str());
    let name_chars = chars_of(file.name.as_str());
    let content = searched_chars(file.content.as_str(), &content_chars, q);
    let name = searched_chars(file.name.as_str(), &name_chars, q);
    if q.parsed.required_terms.len() > 0 || q.parsed.optional_terms.len() > 0
        || q.parsed.excluded_terms.len() > 0 || q.parsed.exact_phrases.len() > 0 {
        let mut combined: Vec<char> = Vec::new();
        append_chars(&mut combined, &name);
        combined.push(' ');
        append_chars(&mut combined, &content);
        proof {
            assert(combined@ =~= name@ + seq![' '] + content@);
        }
        if !chars_match_query(&combined, &q.parsed) {
            return None;
        }
    } else {
        let in_content = holds_query_exec(file.content.as_str(), &content_chars, q, &qtext);
        let in_name = holds_query_exec(file.name.as_str(), &name_chars, q, &qtext);
        if !in_content && !in_name {
            return None;
        }
    }
    let term: Vec<char> = if q.parsed.required_terms.len() > 0 {
        proof {
            assert(views(q.parsed.required_terms@)[0] == q.parsed.required_terms@[0]@);
        }
        chars_of(q.parsed.required_terms[0].as_str())
    } else if q.parsed.optional_terms.len() > 0 {
        proof {
            assert(views(q.parsed.optional_terms@)[0] == q.parsed.optional_terms@[0]@);
        }
        chars_of(q.parsed.optional_terms[0].as_str())
    } else {
        chars_of(q.text.as_str())
    };
    let (found, places) = collect_matches_counted(&content, &content, &name, &name_chars, &term);
    let base: u32 = if contains_chars(&name, &term) {
        20
    } else {
        10
    };
    let score: u32 = base + places as u32;
    Some(SearchResult { file: file.clone(), matches: found, score_tenths: score })
}

// ---------------------------------------------------------------------------
// Ranking
// ---------------------------------------------------------------------------

/// A ranked list with one more result: it goes behind every result that
/// scores at least as much.
pub open spec fn insert_ranked(
    ranked: Seq<SearchResultView>,
    x: SearchResultView,
) -> Seq<SearchResultView>
    decreases ranked.len(),
{
    if ranked.len() == 0 {
        seq![x]
    } else if ranked.last().score_tenths >= x.score_tenths {
        ranked.push(x)
    } else {
        insert_ranked(ranked.drop_last(), x).push(ranked.last())
    }
}

/// The results by falling score; results of one score keep their order.
pub open spec fn ranked(hits: Seq<SearchResultView>) -> Seq<SearchResultView>
    decreases hits.len(),
{
    if hits.len() == 0 {
        Seq::empty()
    } else {
        insert_ranked(ranked(hits.drop_last()), hits.last())
    }
}

/// Scores never rise along the list.
pub open spec fn scores_fall(list: Seq<SearchResultView>) -> bool {
    forall|i: int, j: int|
        0 <= i <= j < list.len() ==> (#[trigger] list[i]).score_tenths >= (
        #[trigger] list[j]).score_tenths
}

/// Inserting at the place behind the last result that scores as much is
/// what [`insert_ranked`] does.
pub proof fn lemma_insert_ranked_at(list: Seq<SearchResultView>, x: SearchResultView, at: int)
    requires
        0 <= at <= list.len(),
        at > 0 ==> list[at - 1].score_tenths >= x.score_tenths,
        forall|k: int| at <= k < list.len() ==> (#[trigger] list[k]).score_tenths < x.score_tenths,
    ensures
        insert_ranked(list, x) == list.insert(at, x),
    decreases list.len(),
{
    if list.len() == 0 {
        assert(list.insert(at, x) =~= seq![x]);
    } else if at == list.len() {
        assert(list.insert(at, x) =~= list.push(x));
    } else {
        assert(list.last().score_tenths < x.score_tenths);
        let shorter = list.drop_last();
        assert forall|k: int| at <= k < shorter.len() implies (#[trigger] shorter[k]).score_tenths
            < x.score_tenths by {
            assert(shorter[k] == list[k]);
        }
        lemma_insert_ranked_at(shorter, x, at);
        assert(shorter.insert(at, x).push(list.last()) =~= list.insert(at, x));
    }
}

/// A ranked list stays ranked when a result is inserted, and holds what it
/// held and the new result.
pub proof fn lemma_insert_ranked(list: Seq<SearchResultView>, x: SearchResultView)
    requires
        scores_fall(list),
    ensures
        scores_fall(insert_ranked(list, x)),
        insert_ranked(list, x).to_multiset() == list.to_multiset().insert(x),
        insert_ranked(list, x).len() == list.len() + 1,
    decreases list.len(),
{
    broadcast use vstd::seq_lib::group_to_multiset_ensures;

    if list.len() == 0 {
        assert(list =~= Seq::<SearchResultView>::empty());
    } else if list.last().score_tenths >= x.score_tenths {
        let out = list.push(x);
        assert forall|i: int, j: int| 0 <= i <= j < out.len() implies (
        #[trigger] out[i]).score_tenths >= (#[trigger] out[j]).score_tenths by {
            if j == list.len() {
                if i < list.len() {
                    assert(list[i].score_tenths >= list.last().score_tenths);
                }
            }
        }
    } else {
        let shorter = list.drop_last();
        assert(scores_fall(shorter)) by {
            assert forall|i: int, j: int| 0 <= i <= j < shorter.len() implies (
            #[trigger] shorter[i]).score_tenths >= (#[trigger] shorter[j]).score_tenths by {
                assert(shorter[i] == list[i] && shorter[j] == list[j]);
            }
        }
        lemma_insert_ranked(shorter, x);
        let inner = insert_ranked(shorter, x);
        let out = inner.push(list.last());
        assert forall|i: int, j: int| 0 <= i <= j < out.len() implies (
        #[trigger] out[i]).score_tenths >= (#[trigger] out[j]).score_tenths by {
            if j == inner.len() && i < inner.len() {
                assert(inner.to_multiset().count(inner[i]) > 0);
                if inner[i] != x {
                    assert(shorter.to_multiset().count(inner[i]) > 0);
                    let k = choose|k: int| 0 <= k < shorter.len() && shorter[k] == inner[i];
                    assert(list[k].score_tenths >= list.last().score_tenths);
                }
            }
        }
        assert(list =~= shorter.push(list.last()));
        assert(out.to_multiset() =~= list.to_multiset().insert(x));
    }
}

/// The ranked results are the results, by falling score.
pub proof fn law_ranked(hits: Seq<SearchResultView>)
    ensures
        scores_fall(ranked(hits)),
        ranked(hits).to_multiset() == hits.to_multiset(),
        ranked(hits).len() == hits.len(),
    decreases hits.len(),
{
    broadcast use vstd::seq_lib::group_to_multiset_ensures;

    if hits.len() == 0 {
        assert(hits =~= Seq::<SearchResultView>::empty());
    } else {
        law_ranked(hits.drop_last());
        lemma_insert_ranked(ranked(hits.drop_last()), hits.last());
        assert(hits =~= hits.drop_last().push(hits.last()));
    }
}

/// Puts `x` into a ranked list.
fn rank_in(list: &mut Vec<SearchResult>, x: SearchResult)
    ensures
        result_views(final(list)@) == insert_ranked(result_views(old(list)@), x@),
        final(list).len() == old(list).len() + 1,
{
    let ghost before = result_views(list@);
    let mut at: usize = list.len();
    while at > 0 && list[at - 1].score_tenths < x.score_tenths
        invariant
            at <= list.len(),
            list@ == old(list)@,
            forall|k: int|
                at <= k < list.len() ==> (#[trigger] result_views(list@)[k]).score_tenths
                    < x.score_tenths,
        decreases at,
    {
        at -= 1;
    }
    proof {
        if at > 0 {
            assert(result_views(list@)[at - 1].score_tenths >= x.score_tenths);
        }
        lemma_insert_ranked_at(before, x@, at as int);
    }
    list.insert(at, x);
    proof {
        assert(result_views(list@) =~= before.insert(at as int, x@));
    }
}

// ---------------------------------------------------------------------------
// The scan
// ---------------------------------------------------------------------------

/// The results of reading `files` in order: each document that answers the
/// query, as long as fewer than `cap` results are held.
pub open spec fn scan_hits(files: Seq<FileDataView>, q: ScanQueryView, cap: nat) -> Seq<
    SearchResultView,
>
    decreases files.len(),
{
    if files.len() == 0 {
        Seq::empty()
    } else {
        let before = scan_hits(files.drop_last(), q, cap);
        match direct_hit(files.last(), q) {
            Some(hit) => if before.len() < cap {
                before.push(hit)
            } else {
                before
            },
            None => before,
        }
    }
}

/// What a direct scan answers: the results of the scan, ranked.
pub open spec fn direct_results(
    query: Seq<char>,
    files: Seq<FileDataView>,
    max_results: Option<usize>,
    only_path: Option<Seq<char>>,
) -> Seq<SearchResultView> {
    let cap = match max_results {
        Some(n) => n,
        None => DEFAULT_MAX_RESULTS,
    };
    ranked(scan_hits(files, scan_query(query, only_path), cap as nat))
}

/// Never more results than the scan may hold.
pub proof fn law_scan_is_capped(files: Seq<FileDataView>, q: ScanQueryView, cap: nat)
    ensures
        scan_hits(files, q, cap).len() <= cap,
        scan_hits(files, q, cap).len() <= files.len(),
    decreases files.len(),
{
    if files.len() > 0 {
        law_scan_is_capped(files.drop_last(), q, cap);
    }
}

/// Answers `query` by reading `files`: at most `max_results` results (100
/// where none is given), the best first. With `file_path_filter` only the
/// document of that path is read. It always answers.
pub fn search_direct_content(
    query: &str,
    files: &Vec<FileData>,
    max_results: Option<usize>,
    file_path_filter: Option<&str>,
) -> (r: Result<Vec<SearchResult>, String>)
    ensures
        r is Ok,
        result_views(r->Ok_0@) == direct_results(
            query@,
            file_views(files@),
            max_results,
            match file_path_filter {
                Some(p) => Some(p@),
                None => None,
            },
        ),
{
    let cap: usize = match max_results {
        Some(n) => n,
        None => DEFAULT_MAX_RESULTS,
    };
    let q = prepare_query(query, file_path_filter);
    let mut results: Vec<SearchResult> = Vec::new();
    let mut taken: usize = 0;
    let mut i: usize = 0;
    proof {
        assert(file_views(files@).take(0) =~= Seq::<FileDataView>::empty());
    }
    while i < files.len()
        invariant
            i <= files.len(),
            taken == scan_hits(file_views(files@).take(i as int), q@, cap as nat).len(),
            taken <= cap,
            taken == results.len(),
            result_views(results@) == ranked(
                scan_hits(file_views(files@).take(i as int), q@, cap as nat),
            ),
        decreases files.len() - i,
    {
        proof {
            assert(file_views(files@).take(i + 1).drop_last() =~= file_views(files@).take(
                i as int,
            ));
            assert(file_views(files@).take(i + 1).last() == files@[i as int]@);
        }
        if taken < cap {
            match scan_document(&files[i], &q) {
                Some(hit) => {
                    rank_in(&mut results, hit);
                    taken += 1;
                    proof {
                        let hits = scan_hits(file_views(files@).take(i + 1), q@, cap as nat);
                        assert(hits.drop_last() =~= scan_hits(
                            file_views(files@).take(i as int),
                            q@,
                            cap as nat,
                        ));
                    }
                },
                None => {},
            }
        }
        i += 1;
    }
    proof {
        assert(file_views(files@).take(files@.len() as int) =~= file_views(files@));
    }
    Ok(results)
}

} // verus!
