//! The boolean query language: parsing a query and matching a text against it.
//!
//! A query is a run of blank-separated words. `"..."` is a phrase, `AND` makes
//! every plain word required, `OR` is noise, `NOT word` and `-word` exclude,
//! `+word` requires, and any other word is optional. Phrases are cut out of
//! the query before it is split into words.

use vstd::prelude::*;
use crate::text::{
    append_chars, chars_eq_ignore_ascii_case, chars_of, char_is_whitespace, contains_chars,
    eq_ignoring_ascii_case, is_space, is_substring, lowercase_of, slice_chars, string_of,
    str_to_lowercase, views,
};

verus! {

// ---------------------------------------------------------------------------
// Scanning for a class of character
// ---------------------------------------------------------------------------

/// The classes of character that the grammar looks for.
#[derive(Clone, Copy, Debug, PartialEq, Eq, Structural)]
pub enum CharClass {
    Quote,
    Blank,
    NonBlank,
}

/// Whether `c` belongs to `class`.
pub open spec fn in_class(class: CharClass, c: char) -> bool {
    match class {
        CharClass::Quote => c == '"',
        CharClass::Blank => is_space(c),
        CharClass::NonBlank => !is_space(c),
    }
}

/// The first index at or after `from` whose character is in `class`, or the
/// length of `s` where there is none.
pub open spec fn first_in_class(s: Seq<char>, from: int, class: CharClass) -> int
    decreases s.len() - from,
{
    if from < 0 || from >= s.len() {
        s.len() as int
    } else if in_class(class, s[from]) {
        from
    } else {
        first_in_class(s, from + 1, class)
    }
}

pub proof fn lemma_first_in_class(s: Seq<char>, from: int, class: CharClass)
    requires
        0 <= from <= s.len(),
    ensures
        from <= first_in_class(s, from, class) <= s.len(),
        first_in_class(s, from, class) < s.len() ==> in_class(
            class,
            s[first_in_class(s, from, class)],
        ),
        forall|k: int|
            from <= k < first_in_class(s, from, class) ==> !in_class(class, #[trigger] s[k]),
    decreases s.len() - from,
{
    if from < s.len() && !in_class(class, s[from]) {
        lemma_first_in_class(s, from + 1, class);
    }
}

/// `first_in_class` is the index `at` once everything before `at` is outside
/// the class and `at` is the end or a member.
pub proof fn lemma_first_in_class_is(s: Seq<char>, from: int, class: CharClass, at: int)
    requires
        0 <= from <= at <= s.len(),
        forall|k: int| from <= k < at ==> !in_class(class, #[trigger] s[k]),
        at < s.len() ==> in_class(class, s[at]),
    ensures
        first_in_class(s, from, class) == at,
    decreases at - from,
{
    if from < at {
        lemma_first_in_class_is(s, from + 1, class, at);
    }
}

fn char_in_class(class: CharClass, c: char) -> (r: bool)
    ensures
        r == in_class(class, c),
{
    match class {
        CharClass::Quote => c == '"',
        CharClass::Blank => char_is_whitespace(c),
        CharClass::NonBlank => !char_is_whitespace(c),
    }
}

/// Computes [`first_in_class`].
pub fn find_in_class(s: &Vec<char>, from: usize, class: CharClass) -> (r: usize)
    requires
        from <= s.len(),
    ensures
        r == first_in_class(s@, from as int, class),
        from <= r <= s.len(),
{
    let mut i: usize = from;
    while i < s.len()
        invariant
            from <= i <= s.len(),
            first_in_class(s@, from as int, class) == first_in_class(s@, i as int, class),
        decreases s.len() - i,
    {
        if char_in_class(class, s[i]) {
            return i;
        }
        i += 1;
    }
    i
}

// ---------------------------------------------------------------------------
// Phrases
// ---------------------------------------------------------------------------

/// The phrases of `s` from `from` on: the texts between a quote and the next
/// quote, where at least one character stands between them. A quote that is
/// directly followed by another opens nothing, and the second is tried in its
/// turn; a quote that is never closed opens nothing either.
pub open spec fn quoted_phrases(s: Seq<char>, from: int) -> Seq<Seq<char>>
    decreases s.len() - from,
{
    let open = first_in_class(s, from, CharClass::Quote);
    let close = first_in_class(s, open + 1, CharClass::Quote);
    if from < 0 || open >= s.len() || close >= s.len() {
        Seq::empty()
    } else if close == open + 1 {
        proof {
            lemma_first_in_class(s, from, CharClass::Quote);
        }
        quoted_phrases(s, open + 1)
    } else {
        proof {
            lemma_first_in_class(s, from, CharClass::Quote);
            lemma_first_in_class(s, open + 1, CharClass::Quote);
        }
        seq![s.subrange(open + 1, close)] + quoted_phrases(s, close + 1)
    }
}

/// The text of `s` from `from` on with every phrase, quotes included,
/// replaced by one blank.
pub open spec fn without_phrases(s: Seq<char>, from: int) -> Seq<char>
    decreases s.len() - from,
{
    let open = first_in_class(s, from, CharClass::Quote);
    let close = first_in_class(s, open + 1, CharClass::Quote);
    if from < 0 || from > s.len() {
        Seq::empty()
    } else if open >= s.len() || close >= s.len() {
        s.subrange(from, s.len() as int)
    } else if close == open + 1 {
        proof {
            lemma_first_in_class(s, from, CharClass::Quote);
        }
        s.subrange(from, open + 1) + without_phrases(s, open + 1)
    } else {
        proof {
            lemma_first_in_class(s, from, CharClass::Quote);
            lemma_first_in_class(s, open + 1, CharClass::Quote);
        }
        s.subrange(from, open) + seq![' '] + without_phrases(s, close + 1)
    }
}

/// The characters of each row.
pub open spec fn rows(v: Seq<Vec<char>>) -> Seq<Seq<char>> {
    Seq::new(v.len(), |i: int| v[i]@)
}

/// Cuts the phrases out of `s`: the phrases in order, and what is left of
/// the text.
pub fn split_phrases(s: &Vec<char>) -> (r: (Vec<Vec<char>>, Vec<char>))
    ensures
        rows(r.0@) == quoted_phrases(s@, 0),
        r.1@ == without_phrases(s@, 0),
{
    let mut phrases: Vec<Vec<char>> = Vec::new();
    let mut rest: Vec<char> = Vec::new();
    let mut pos: usize = 0;
    let n = s.len();
    proof {
        assert(rows(phrases@) + quoted_phrases(s@, 0) =~= quoted_phrases(s@, 0));
        assert(rest@ + without_phrases(s@, 0) =~= without_phrases(s@, 0));
    }
    loop
        invariant_except_break
            rows(phrases@) + quoted_phrases(s@, pos as int) == quoted_phrases(s@, 0),
            rest@ + without_phrases(s@, pos as int) == without_phrases(s@, 0),
        invariant
            n == s.len(),
            pos <= n,
        ensures
            rows(phrases@) == quoted_phrases(s@, 0),
            rest@ == without_phrases(s@, 0),
        decreases n - pos,
    {
        let open = find_in_class(s, pos, CharClass::Quote);
        let close = if open < n {
            find_in_class(s, open + 1, CharClass::Quote)
        } else {
            n
        };
        proof {
            if open >= n {
                assert(first_in_class(s@, open + 1, CharClass::Quote) == n);
            }
        }
        if open >= n || close >= n {
            let tail = slice_chars(s, pos, n);
            append_chars(&mut rest, &tail);
            proof {
                assert(quoted_phrases(s@, pos as int) =~= Seq::<Seq<char>>::empty());
                assert(rows(phrases@) + Seq::<Seq<char>>::empty() =~= rows(phrases@));
            }
            break;
        } else if close == open + 1 {
            let kept = slice_chars(s, pos, open + 1);
            let ghost before = rest@;
            append_chars(&mut rest, &kept);
            proof {
                assert(without_phrases(s@, pos as int) == s@.subrange(pos as int, open + 1)
                    + without_phrases(s@, open + 1));
                assert(rest@ + without_phrases(s@, open + 1) =~= before + without_phrases(
                    s@,
                    pos as int,
                ));
            }
            pos = open + 1;
        } else {
            let kept = slice_chars(s, pos, open);
            let phrase = slice_chars(s, open + 1, close);
            let ghost before = rest@;
            let ghost found = rows(phrases@);
            append_chars(&mut rest, &kept);
            rest.push(' ');
            phrases.push(phrase);
            proof {
                assert(without_phrases(s@, pos as int) == s@.subrange(pos as int, open as int)
                    + seq![' '] + without_phrases(s@, close + 1));
                assert(rest@ + without_phrases(s@, close + 1) =~= before + without_phrases(
                    s@,
                    pos as int,
                ));
                assert(quoted_phrases(s@, pos as int) == seq![
                    s@.subrange(open + 1, close as int),
                ] + quoted_phrases(s@, close + 1));
                assert(rows(phrases@) =~= found.push(s@.subrange(open + 1, close as int)));
                assert(rows(phrases@) + quoted_phrases(s@, close + 1) =~= found + quoted_phrases(
                    s@,
                    pos as int,
                ));
            }
            pos = close + 1;
        }
    }
    (phrases, rest)
}

// ---------------------------------------------------------------------------
// Words
// ---------------------------------------------------------------------------

/// The words of `s` from `from` on: its maximal runs of non-blank characters.
pub open spec fn words_from(s: Seq<char>, from: int) -> Seq<Seq<char>>
    decreases s.len() - from,
{
    let start = first_in_class(s, from, CharClass::NonBlank);
    let end = first_in_class(s, start, CharClass::Blank);
    if from < 0 || start >= s.len() {
        Seq::empty()
    } else {
        proof {
            lemma_first_in_class(s, from, CharClass::NonBlank);
            lemma_first_in_class(s, start, CharClass::Blank);
        }
        seq![s.subrange(start, end)] + words_from(s, end)
    }
}

/// The words of `s`.
pub open spec fn words(s: Seq<char>) -> Seq<Seq<char>> {
    words_from(s, 0)
}

/// Splits `s` at its blanks, as [`words`] says.
pub fn split_words(s: &Vec<char>) -> (r: Vec<Vec<char>>)
    ensures
        rows(r@) == words(s@),
        forall|i: int| 0 <= i < r.len() ==> (#[trigger] r[i])@.len() > 0,
{
    let mut out: Vec<Vec<char>> = Vec::new();
    let mut pos: usize = 0;
    let n = s.len();
    proof {
        assert(rows(out@) + words_from(s@, 0) =~= words_from(s@, 0));
    }
    loop
        invariant_except_break
            rows(out@) + words_from(s@, pos as int) == words(s@),
        invariant
            n == s.len(),
            pos <= n,
            forall|i: int| 0 <= i < out.len() ==> (#[trigger] out[i])@.len() > 0,
        ensures
            rows(out@) == words(s@),
            forall|i: int| 0 <= i < out.len() ==> (#[trigger] out[i])@.len() > 0,
        decreases n - pos,
    {
        let start = find_in_class(s, pos, CharClass::NonBlank);
        if start >= n {
            proof {
                assert(words_from(s@, pos as int) =~= Seq::<Seq<char>>::empty());
                assert(rows(out@) + Seq::<Seq<char>>::empty() =~= rows(out@));
            }
            break;
        }
        let end = find_in_class(s, start, CharClass::Blank);
        proof {
            lemma_first_in_class(s@, pos as int, CharClass::NonBlank);
            lemma_first_in_class(s@, start as int, CharClass::Blank);
        }
        let word = slice_chars(s, start, end);
        let ghost found = rows(out@);
        out.push(word);
        proof {
            assert(rows(out@) =~= found.push(s@.subrange(start as int, end as int)));
            assert(rows(out@) + words_from(s@, end as int) =~= found + words_from(s@, pos as int));
        }
        pos = end;
    }
    out
}

// ---------------------------------------------------------------------------
// Sorting the words into lists
// ---------------------------------------------------------------------------

/// The word `and`.
pub open spec fn word_and() -> Seq<char> {
    seq!['a', 'n', 'd']
}

/// The word `or`.
pub open spec fn word_or() -> Seq<char> {
    seq!['o', 'r']
}

/// The word `not`.
pub open spec fn word_not() -> Seq<char> {
    seq!['n', 'o', 't']
}

/// Whether `w` begins with the character `c`.
pub open spec fn begins_with(w: Seq<char>, c: char) -> bool {
    w.len() > 0 && w[0] == c
}

/// The three lists that the words of a query are sorted into, and whether
/// `AND` stood among them.
pub struct TermLists {
    pub required: Seq<Seq<char>>,
    pub optional: Seq<Seq<char>>,
    pub excluded: Seq<Seq<char>>,
    pub has_and: bool,
}

impl TermLists {
    pub open spec fn none() -> TermLists {
        TermLists {
            required: Seq::empty(),
            optional: Seq::empty(),
            excluded: Seq::empty(),
            has_and: false,
        }
    }

    /// The lists of `self` followed by those of `later`.
    pub open spec fn followed_by(self, later: TermLists) -> TermLists {
        TermLists {
            required: self.required + later.required,
            optional: self.optional + later.optional,
            excluded: self.excluded + later.excluded,
            has_and: self.has_and || later.has_and,
        }
    }
}

/// What the word at `i` contributes, and how many words it uses up.
pub open spec fn word_effect(ws: Seq<Seq<char>>, i: int) -> (TermLists, int) {
    let w = ws[i];
    if eq_ignoring_ascii_case(w, word_and()) {
        (TermLists { has_and: true, ..TermLists::none() }, 1)
    } else if eq_ignoring_ascii_case(w, word_or()) {
        (TermLists::none(), 1)
    } else if begins_with(w, '-') {
        if w.len() > 1 {
            (TermLists { excluded: seq![lowercase_of(w.skip(1))], ..TermLists::none() }, 1)
        } else {
            (TermLists::none(), 1)
        }
    } else if eq_ignoring_ascii_case(w, word_not()) {
        if i + 1 >= ws.len() {
            (TermLists::none(), 1)
        } else if ws[i + 1].len() > 0 {
            (TermLists { excluded: seq![lowercase_of(ws[i + 1])], ..TermLists::none() }, 2)
        } else {
            (TermLists::none(), 2)
        }
    } else if begins_with(w, '+') {
        if w.len() > 1 {
            (TermLists { required: seq![lowercase_of(w.skip(1))], ..TermLists::none() }, 1)
        } else {
            (TermLists::none(), 1)
        }
    } else {
        (TermLists { optional: seq![lowercase_of(w)], ..TermLists::none() }, 1)
    }
}

/// The lists that the words from `i` on are sorted into, left to right.
pub open spec fn sort_words(ws: Seq<Seq<char>>, i: int) -> TermLists
    decreases ws.len() - i,
{
    if i < 0 || i >= ws.len() {
        TermLists::none()
    } else {
        word_effect(ws, i).0.followed_by(sort_words(ws, i + word_effect(ws, i).1))
    }
}



// ---------------------------------------------------------------------------
// The parsed query
// ---------------------------------------------------------------------------

/// A query taken apart.
#[derive(Debug)]
pub struct ParsedQuery {
    /// Terms that must all occur.
    pub required_terms: Vec<String>,
    /// Terms of which one must occur where nothing is required.
    pub optional_terms: Vec<String>,
    /// Terms that must not occur.
    pub excluded_terms: Vec<String>,
    /// The quoted phrases; they are required terms too.
    pub exact_phrases: Vec<String>,
}

/// What a [`ParsedQuery`] holds, as mathematical values.
pub struct ParsedQueryView {
    pub required_terms: Seq<Seq<char>>,
    pub optional_terms: Seq<Seq<char>>,
    pub excluded_terms: Seq<Seq<char>>,
    pub exact_phrases: Seq<Seq<char>>,
}

impl View for ParsedQuery {
    type V = ParsedQueryView;

    open spec fn view(&self) -> ParsedQueryView {
        ParsedQueryView {
            required_terms: views(self.required_terms@),
            optional_terms: views(self.optional_terms@),
            excluded_terms: views(self.excluded_terms@),
            exact_phrases: views(self.exact_phrases@),
        }
    }
}

/// Each text in lower case.
pub open spec fn lowered(texts: Seq<Seq<char>>) -> Seq<Seq<char>> {
    Seq::new(texts.len(), |i: int| lowercase_of(texts[i]))
}

/// What a query means: its phrases in lower case, and its words sorted into
/// the three lists. After an `AND` every optional word is required. The
/// phrases are required as well, after the words.
pub open spec fn parsed(query: Seq<char>) -> ParsedQueryView {
    let phrases = lowered(quoted_phrases(query, 0));
    let lists = sort_words(words(without_phrases(query, 0)), 0);
    ParsedQueryView {
        required_terms: if lists.has_and {
            lists.required + lists.optional + phrases
        } else {
            lists.required + phrases
        },
        optional_terms: if lists.has_and {
            Seq::empty()
        } else {
            lists.optional
        },
        excluded_terms: lists.excluded,
        exact_phrases: phrases,
    }
}

fn lower_string(chars: &Vec<char>) -> (r: String)
    ensures
        r@ == lowercase_of(chars@),
{
    let s = string_of(chars);
    str_to_lowercase(s.as_str())
}

fn is_word(w: &Vec<char>, a: char, b: char, c: Option<char>) -> (r: bool)
    ensures
        r == eq_ignoring_ascii_case(
            w@,
            match c {
                Some(c) => seq![a, b, c],
                None => seq![a, b],
            },
        ),
{
    let mut kw: Vec<char> = Vec::new();
    kw.push(a);
    kw.push(b);
    match c {
        Some(c) => {
            kw.push(c);
            proof {
                assert(kw@ =~= seq![a, b, c]);
            }
        },
        None => {
            proof {
                assert(kw@ =~= seq![a, b]);
            }
        },
    }
    chars_eq_ignore_ascii_case(w, &kw)
}

fn push_all(target: &mut Vec<String>, source: &Vec<String>)
    ensures
        views(final(target)@) == views(old(target)@) + views(source@),
{
    let mut i: usize = 0;
    proof {
        assert(views(target@) =~= views(old(target)@) + views(source@.take(0)));
    }
    while i < source.len()
        invariant
            i <= source.len(),
            views(target@) == views(old(target)@) + views(source@.take(i as int)),
        decreases source.len() - i,
    {
        let ghost before = views(target@);
        target.push(source[i].clone());
        proof {
            assert(views(target@) =~= before.push(source@[i as int]@));
            assert(views(source@.take(i + 1)) =~= views(source@.take(i as int)).push(
                source@[i as int]@,
            ));
            assert(views(target@) =~= views(old(target)@) + views(source@.take(i + 1)));
        }
        i += 1;
    }
    proof {
        assert(source@.take(source@.len() as int) =~= source@);
    }
}

/// Sorts the word at `i` into its list, as [`word_effect`] says, and tells
/// how many words that used up and whether the word was `AND`.
fn sort_word(
    ws: &Vec<Vec<char>>,
    i: usize,
    required: &mut Vec<String>,
    optional: &mut Vec<String>,
    excluded: &mut Vec<String>,
) -> (r: (usize, bool))
    requires
        i < ws.len(),
        forall|j: int| 0 <= j < ws.len() ==> (#[trigger] ws[j])@.len() > 0,
    ensures
        r.0 == word_effect(rows(ws@), i as int).1,
        r.1 == word_effect(rows(ws@), i as int).0.has_and,
        views(final(required)@) == views(old(required)@) + word_effect(
            rows(ws@),
            i as int,
        ).0.required,
        views(final(optional)@) == views(old(optional)@) + word_effect(
            rows(ws@),
            i as int,
        ).0.optional,
        views(final(excluded)@) == views(old(excluded)@) + word_effect(
            rows(ws@),
            i as int,
        ).0.excluded,
{
    let ghost r0 = views(required@);
    let ghost o0 = views(optional@);
    let ghost e0 = views(excluded@);
    proof {
        assert(rows(ws@)[i as int] == ws@[i as int]@);
        if i + 1 < ws.len() {
            assert(rows(ws@)[i + 1] == ws@[i + 1]@);
        }
        assert(r0 + Seq::<Seq<char>>::empty() =~= r0);
        assert(o0 + Seq::<Seq<char>>::empty() =~= o0);
        assert(e0 + Seq::<Seq<char>>::empty() =~= e0);
    }
    let w = &ws[i];
    if is_word(w, 'a', 'n', Some('d')) {
        (1, true)
    } else if is_word(w, 'o', 'r', None) {
        (1, false)
    } else if w[0] == '-' {
        if w.len() > 1 {
            let term = slice_chars(w, 1, w.len());
            proof {
                assert(term@ =~= w@.skip(1));
            }
            excluded.push(lower_string(&term));
            proof {
                assert(views(excluded@) =~= e0 + seq![lowercase_of(w@.skip(1))]);
            }
        }
        (1, false)
    } else if is_word(w, 'n', 'o', Some('t')) {
        if i + 1 < ws.len() {
            excluded.push(lower_string(&ws[i + 1]));
            proof {
                assert(views(excluded@) =~= e0 + seq![lowercase_of(ws@[i + 1]@)]);
            }
            (2, false)
        } else {
            (1, false)
        }
    } else if w[0] == '+' {
        if w.len() > 1 {
            let term = slice_chars(w, 1, w.len());
            proof {
                assert(term@ =~= w@.skip(1));
            }
            required.push(lower_string(&term));
            proof {
                assert(views(required@) =~= r0 + seq![lowercase_of(w@.skip(1))]);
            }
        }
        (1, false)
    } else {
        optional.push(lower_string(w));
        proof {
            assert(views(optional@) =~= o0 + seq![lowercase_of(w@)]);
        }
        (1, false)
    }
}

/// Takes a query apart.
///
/// Every string is a query: the result is [`parsed`] of it, and nothing else
/// enters into it.
pub fn parse_simple_query(query: &str) -> (r: ParsedQuery)
    ensures
        r@ == parsed(query@),
{
    let chars = chars_of(query);
    let (phrase_rows, rest) = split_phrases(&chars);

    let mut exact_phrases: Vec<String> = Vec::new();
    let mut k: usize = 0;
    proof {
        assert(views(exact_phrases@) =~= lowered(rows(phrase_rows@)).take(0));
    }
    while k < phrase_rows.len()
        invariant
            k <= phrase_rows.len(),
            views(exact_phrases@) == lowered(rows(phrase_rows@)).take(k as int),
        decreases phrase_rows.len() - k,
    {
        let ghost before = views(exact_phrases@);
        exact_phrases.push(lower_string(&phrase_rows[k]));
        proof {
            assert(views(exact_phrases@) =~= before.push(lowercase_of(phrase_rows@[k as int]@)));
            assert(views(exact_phrases@) =~= lowered(rows(phrase_rows@)).take(k + 1));
        }
        k += 1;
    }
    proof {
        assert(views(exact_phrases@) =~= lowered(quoted_phrases(query@, 0)));
    }

    let ws = split_words(&rest);
    let mut required: Vec<String> = Vec::new();
    let mut optional: Vec<String> = Vec::new();
    let mut excluded: Vec<String> = Vec::new();
    let mut has_and = false;
    let mut i: usize = 0;
    let ghost all = sort_words(rows(ws@), 0);
    proof {
        assert(views(required@) + all.required =~= all.required);
        assert(views(optional@) + all.optional =~= all.optional);
        assert(views(excluded@) + all.excluded =~= all.excluded);
    }
    while i < ws.len()
        invariant
            i <= ws.len(),
            all == sort_words(rows(ws@), 0),
            forall|j: int| 0 <= j < ws.len() ==> (#[trigger] ws[j])@.len() > 0,
            views(required@) + sort_words(rows(ws@), i as int).required == all.required,
            views(optional@) + sort_words(rows(ws@), i as int).optional == all.optional,
            views(excluded@) + sort_words(rows(ws@), i as int).excluded == all.excluded,
            (has_and || sort_words(rows(ws@), i as int).has_and) == all.has_and,
        decreases ws.len() - i,
    {
        let ghost r0 = views(required@);
        let ghost o0 = views(optional@);
        let ghost e0 = views(excluded@);
        let ghost here = sort_words(rows(ws@), i as int);
        let ghost effect = word_effect(rows(ws@), i as int);
        let ghost later = sort_words(rows(ws@), i + effect.1);
        proof {
            assert(here == effect.0.followed_by(later));
        }
        let (step, saw_and) = sort_word(&ws, i, &mut required, &mut optional, &mut excluded);
        if saw_and {
            has_and = true;
        }
        proof {
            assert(views(required@) + later.required =~= r0 + here.required);
            assert(views(optional@) + later.optional =~= o0 + here.optional);
            assert(views(excluded@) + later.excluded =~= e0 + here.excluded);
        }
        i = i + step;
    }
    proof {
        assert(sort_words(rows(ws@), i as int) == TermLists::none());
        assert(views(required@) + Seq::<Seq<char>>::empty() =~= views(required@));
        assert(views(optional@) + Seq::<Seq<char>>::empty() =~= views(optional@));
        assert(views(excluded@) + Seq::<Seq<char>>::empty() =~= views(excluded@));
    }

    if has_and {
        push_all(&mut required, &optional);
        optional = Vec::new();
        proof {
            assert(views(optional@) =~= Seq::<Seq<char>>::empty());
        }
    }
    push_all(&mut required, &exact_phrases);

    ParsedQuery {
        required_terms: required,
        optional_terms: optional,
        excluded_terms: excluded,
        exact_phrases,
    }
}

// ---------------------------------------------------------------------------
// Matching
// ---------------------------------------------------------------------------

/// Every term occurs in `text`.
pub open spec fn all_occur(terms: Seq<Seq<char>>, text: Seq<char>) -> bool {
    forall|i: int| 0 <= i < terms.len() ==> is_substring(#[trigger] terms[i], text)
}

/// Some term occurs in `text`.
pub open spec fn some_occurs(terms: Seq<Seq<char>>, text: Seq<char>) -> bool {
    exists|i: int| 0 <= i < terms.len() && is_substring(#[trigger] terms[i], text)
}

/// Whether `text` answers the query: no excluded term occurs, every phrase
/// and every required term occurs, and where nothing is required but some
/// terms are optional, one of those occurs.
pub open spec fn query_matches(text: Seq<char>, query: ParsedQueryView) -> bool {
    &&& !some_occurs(query.excluded_terms, text)
    &&& all_occur(query.exact_phrases, text)
    &&& all_occur(query.required_terms, text)
    &&& (query.required_terms.len() == 0 && query.optional_terms.len() > 0 ==> some_occurs(
        query.optional_terms,
        text,
    ))
}

fn every_term_occurs(terms: &Vec<String>, text: &Vec<char>) -> (r: bool)
    ensures
        r == all_occur(views(terms@), text@),
{
    let mut i: usize = 0;
    while i < terms.len()
        invariant
            i <= terms.len(),
            forall|k: int| 0 <= k < i ==> is_substring(#[trigger] views(terms@)[k], text@),
        decreases terms.len() - i,
    {
        let term = chars_of(terms[i].as_str());
        if !contains_chars(text, &term) {
            proof {
                assert(views(terms@)[i as int] == term@);
            }
            return false;
        }
        proof {
            assert(views(terms@)[i as int] == term@);
        }
        i += 1;
    }
    true
}

fn a_term_occurs(terms: &Vec<String>, text: &Vec<char>) -> (r: bool)
    ensures
        r == some_occurs(views(terms@), text@),
{
    let mut i: usize = 0;
    while i < terms.len()
        invariant
            i <= terms.len(),
            forall|k: int| 0 <= k < i ==> !is_substring(#[trigger] views(terms@)[k], text@),
        decreases terms.len() - i,
    {
        let term = chars_of(terms[i].as_str());
        proof {
            assert(views(terms@)[i as int] == term@);
        }
        if contains_chars(text, &term) {
            return true;
        }
        i += 1;
    }
    false
}

/// Whether the text that `chars` spells answers `query`.
pub fn chars_match_query(chars: &Vec<char>, query: &ParsedQuery) -> (r: bool)
    ensures
        r == query_matches(chars@, query@),
{
    if a_term_occurs(&query.excluded_terms, chars) {
        return false;
    }
    if !every_term_occurs(&query.exact_phrases, chars) {
        return false;
    }
    if !every_term_occurs(&query.required_terms, chars) {
        return false;
    }
    if query.required_terms.len() == 0 && query.optional_terms.len() > 0 {
        return a_term_occurs(&query.optional_terms, chars);
    }
    true
}

/// Whether `text` answers `query`. The terms are compared as they are: a
/// caller that wants case ignored hands in a text in lower case.
pub fn matches_parsed_query(text: &str, query: &ParsedQuery) -> (r: bool)
    ensures
        r == query_matches(text@, query@),
{
    let chars = chars_of(text);
    chars_match_query(&chars, query)
}

} // verus!
