//! What holds of every query: the algebra that ties the grammar to substring
//! search.

use vstd::prelude::*;
use crate::text::{
    eq_ignoring_ascii_case, is_space, is_substring, lemma_lowercase_of_plain, lowercase_of,
};
use crate::query::{
    all_occur, begins_with, first_in_class, lemma_first_in_class_is, lowered, parsed,
    query_matches, quoted_phrases, some_occurs, sort_words, without_phrases, word_and,
    word_effect, word_not, word_or, words, words_from, CharClass, ParsedQueryView, TermLists,
};

verus! {

/// A term as it can stand in a query: not empty, free of blanks and quotes,
/// and already in lower case.
pub open spec fn is_term(t: Seq<char>) -> bool {
    &&& t.len() > 0
    &&& forall|i: int| 0 <= i < t.len() ==> !is_space(#[trigger] t[i]) && t[i] != '"'
    &&& lowercase_of(t) == t
}

/// A term that the grammar reads as a plain word: it carries no sign and is
/// none of the three operators.
pub open spec fn is_plain_word(t: Seq<char>) -> bool {
    &&& is_term(t)
    &&& !begins_with(t, '+')
    &&& !begins_with(t, '-')
    &&& !eq_ignoring_ascii_case(t, word_and())
    &&& !eq_ignoring_ascii_case(t, word_or())
    &&& !eq_ignoring_ascii_case(t, word_not())
}

/// A word of small letters and digits of ASCII.
pub open spec fn is_small_word(t: Seq<char>) -> bool {
    &&& t.len() > 0
    &&& forall|i: int|
        0 <= i < t.len() ==> ('a' <= #[trigger] t[i] && t[i] <= 'z') || ('0' <= t[i] && t[i]
            <= '9')
}

/// A word of small letters and digits is a term: it holds no blank and no
/// quote, and it is its own lower-case form.
pub proof fn lemma_small_word_is_term(t: Seq<char>)
    requires
        is_small_word(t),
    ensures
        is_term(t),
{
    lemma_lowercase_of_plain(t);
}

/// A word of small letters and digits is a plain word unless it spells one
/// of the three operators.
pub proof fn lemma_small_word_is_plain(t: Seq<char>)
    requires
        is_small_word(t),
        t != seq!['a', 'n', 'd'],
        t != seq!['o', 'r'],
        t != seq!['n', 'o', 't'],
    ensures
        is_plain_word(t),
{
    lemma_small_word_is_term(t);
    if eq_ignoring_ascii_case(t, word_and()) {
        assert(t =~= seq!['a', 'n', 'd']);
    }
    if eq_ignoring_ascii_case(t, word_or()) {
        assert(t =~= seq!['o', 'r']);
    }
    if eq_ignoring_ascii_case(t, word_not()) {
        assert(t =~= seq!['n', 'o', 't']);
    }
}

/// A text without quotes holds no phrase and loses nothing.
pub proof fn lemma_no_quotes(s: Seq<char>)
    requires
        forall|i: int| 0 <= i < s.len() ==> #[trigger] s[i] != '"',
    ensures
        quoted_phrases(s, 0) == Seq::<Seq<char>>::empty(),
        without_phrases(s, 0) == s,
{
    lemma_first_in_class_is(s, 0, CharClass::Quote, s.len() as int);
    assert(s.subrange(0, s.len() as int) =~= s);
}

/// One step of splitting: blanks up to `start`, then a word up to `end`.
pub proof fn lemma_words_step(s: Seq<char>, from: int, start: int, end: int)
    requires
        0 <= from <= start < end <= s.len(),
        forall|k: int| from <= k < start ==> is_space(#[trigger] s[k]),
        forall|k: int| start <= k < end ==> !is_space(#[trigger] s[k]),
        end < s.len() ==> is_space(s[end]),
    ensures
        words_from(s, from) == seq![s.subrange(start, end)] + words_from(s, end),
{
    lemma_first_in_class_is(s, from, CharClass::NonBlank, start);
    lemma_first_in_class_is(s, start, CharClass::Blank, end);
}

/// Nothing but blanks holds no word.
pub proof fn lemma_words_end(s: Seq<char>, from: int)
    requires
        0 <= from <= s.len(),
        forall|k: int| from <= k < s.len() ==> is_space(#[trigger] s[k]),
    ensures
        words_from(s, from) == Seq::<Seq<char>>::empty(),
{
    lemma_first_in_class_is(s, from, CharClass::NonBlank, s.len() as int);
}

/// The same query always means the same, and a text either answers it or
/// does not: both are functions of their arguments alone.
pub proof fn law_parse_is_a_function(q1: Seq<char>, q2: Seq<char>, text: Seq<char>)
    requires
        q1 == q2,
    ensures
        parsed(q1) == parsed(q2),
        query_matches(text, parsed(q1)) == query_matches(text, parsed(q2)),
{
}

/// The empty query asks for nothing, and every text answers it.
pub proof fn law_empty_query(text: Seq<char>)
    ensures
        parsed(Seq::empty()).required_terms.len() == 0,
        parsed(Seq::empty()).optional_terms.len() == 0,
        parsed(Seq::empty()).excluded_terms.len() == 0,
        parsed(Seq::empty()).exact_phrases.len() == 0,
        query_matches(text, parsed(Seq::empty())),
{
    let q = Seq::<char>::empty();
    lemma_no_quotes(q);
    lemma_words_end(q, 0);
    assert(lowered(Seq::<Seq<char>>::empty()) =~= Seq::<Seq<char>>::empty());
}

/// Every phrase of a query is among its required terms.
pub proof fn law_phrases_are_required(query: Seq<char>, i: int)
    requires
        0 <= i < parsed(query).exact_phrases.len(),
    ensures
        parsed(query).required_terms.contains(parsed(query).exact_phrases[i]),
{
    let p = parsed(query);
    let k = p.required_terms.len() - p.exact_phrases.len() + i;
    assert(p.required_terms[k] == p.exact_phrases[i]);
}

/// After an `AND` no term is optional: every plain word is required.
pub proof fn law_and_leaves_no_optional(query: Seq<char>)
    requires
        sort_words(words(without_phrases(query, 0)), 0).has_and,
    ensures
        parsed(query).optional_terms.len() == 0,
        parsed(query).required_terms.len() == sort_words(
            words(without_phrases(query, 0)),
            0,
        ).required.len() + sort_words(words(without_phrases(query, 0)), 0).optional.len()
            + parsed(query).exact_phrases.len(),
{
}

/// `+term` is answered by exactly the texts that hold `term`.
pub proof fn law_plus_requires(term: Seq<char>, text: Seq<char>)
    requires
        is_term(term),
    ensures
        query_matches(text, parsed(seq!['+'] + term)) <==> is_substring(term, text),
{
    let q = seq!['+'] + term;
    assert forall|i: int| 0 <= i < q.len() implies #[trigger] q[i] != '"' by {
        if i > 0 {
            assert(q[i] == term[i - 1]);
        }
    }
    lemma_no_quotes(q);
    assert forall|k: int| 0 <= k < q.len() implies !is_space(#[trigger] q[k]) by {
        if k > 0 {
            assert(q[k] == term[k - 1]);
        }
    }
    lemma_words_step(q, 0, 0, q.len() as int);
    lemma_words_end(q, q.len() as int);
    assert(q.subrange(0, q.len() as int) =~= q);
    let ws = seq![q];
    assert(words(q) =~= ws);
    assert(q.skip(1) =~= term);
    assert(!eq_ignoring_ascii_case(q, word_and())) by {
        if q.len() == word_and().len() {
            assert(q[0] == '+');
        }
    }
    assert(!eq_ignoring_ascii_case(q, word_or())) by {
        if q.len() == word_or().len() {
            assert(q[0] == '+');
        }
    }
    assert(!eq_ignoring_ascii_case(q, word_not())) by {
        if q.len() == word_not().len() {
            assert(q[0] == '+');
        }
    }
    assert(word_effect(ws, 0) == (
        TermLists { required: seq![term], ..TermLists::none() },
        1int,
    ));
    assert(sort_words(ws, 1) == TermLists::none());
    let lists = sort_words(ws, 0);
    assert(lists.required =~= seq![term]);
    assert(lists.optional =~= Seq::<Seq<char>>::empty());
    assert(lists.excluded =~= Seq::<Seq<char>>::empty());
    assert(!lists.has_and);
    let p = parsed(q);
    assert(lowered(Seq::<Seq<char>>::empty()) =~= Seq::<Seq<char>>::empty());
    assert(p.required_terms =~= seq![term]);
    assert(p.required_terms[0] == term);
}

/// `a AND b` is answered by exactly the texts that hold both words.
pub proof fn law_and_requires_both(a: Seq<char>, b: Seq<char>, text: Seq<char>)
    requires
        is_plain_word(a),
        is_plain_word(b),
    ensures
        query_matches(text, parsed(a + seq![' ', 'A', 'N', 'D', ' '] + b)) <==> (is_substring(
            a,
            text,
        ) && is_substring(b, text)),
{
    let mid = seq![' ', 'A', 'N', 'D', ' '];
    let q = a + mid + b;
    let la = a.len() as int;
    let n = q.len() as int;
    assert(n == la + 5 + b.len());
    assert forall|i: int| 0 <= i < n implies q[i] == (if i < la {
        a[i]
    } else if i < la + 5 {
        mid[i - la]
    } else {
        b[i - la - 5]
    }) by {}
    assert forall|i: int| 0 <= i < n implies #[trigger] q[i] != '"' by {
        if i < la {
            assert(q[i] == a[i]);
        } else if i >= la + 5 {
            assert(q[i] == b[i - la - 5]);
        }
    }
    lemma_no_quotes(q);
    assert forall|k: int| 0 <= k < la implies !is_space(#[trigger] q[k]) by {
        assert(q[k] == a[k]);
    }
    assert(is_space(q[la]));
    assert forall|k: int| la + 1 <= k < la + 4 implies !is_space(#[trigger] q[k]) by {
        assert(q[k] == mid[k - la]);
    }
    assert(is_space(q[la + 4]));
    assert forall|k: int| la + 5 <= k < n implies !is_space(#[trigger] q[k]) by {
        assert(q[k] == b[k - la - 5]);
    }
    lemma_words_step(q, 0, 0, la);
    assert forall|k: int| la <= k < la + 1 implies is_space(#[trigger] q[k]) by {}
    lemma_words_step(q, la, la + 1, la + 4);
    assert forall|k: int| la + 4 <= k < la + 5 implies is_space(#[trigger] q[k]) by {}
    lemma_words_step(q, la + 4, la + 5, n);
    lemma_words_end(q, n);
    let and = seq!['A', 'N', 'D'];
    assert(q.subrange(0, la) =~= a);
    assert(q.subrange(la + 1, la + 4) =~= and);
    assert(q.subrange(la + 5, n) =~= b);
    let ws = seq![a, and, b];
    assert(words(q) =~= ws);

    assert(eq_ignoring_ascii_case(and, word_and()));
    assert(word_effect(ws, 0) == (TermLists { optional: seq![a], ..TermLists::none() }, 1int));
    assert(word_effect(ws, 1) == (TermLists { has_and: true, ..TermLists::none() }, 1int));
    assert(word_effect(ws, 2) == (TermLists { optional: seq![b], ..TermLists::none() }, 1int));
    assert(sort_words(ws, 3) == TermLists::none());
    let l2 = sort_words(ws, 2);
    assert(l2.optional =~= seq![b]);
    assert(l2.required =~= Seq::<Seq<char>>::empty());
    assert(l2.excluded =~= Seq::<Seq<char>>::empty());
    let l1 = sort_words(ws, 1);
    assert(l1.optional =~= seq![b]);
    assert(l1.required =~= Seq::<Seq<char>>::empty());
    assert(l1.excluded =~= Seq::<Seq<char>>::empty());
    assert(l1.has_and);
    let l0 = sort_words(ws, 0);
    assert(l0.optional =~= seq![a, b]);
    assert(l0.required =~= Seq::<Seq<char>>::empty());
    assert(l0.excluded =~= Seq::<Seq<char>>::empty());
    assert(l0.has_and);
    let p = parsed(q);
    assert(lowered(Seq::<Seq<char>>::empty()) =~= Seq::<Seq<char>>::empty());
    assert(p.required_terms =~= seq![a, b]);
    assert(p.required_terms[0] == a);
    assert(p.required_terms[1] == b);
    assert(p.excluded_terms =~= Seq::<Seq<char>>::empty());
    assert(p.exact_phrases =~= Seq::<Seq<char>>::empty());
}

/// `a -b` is answered by exactly the texts that hold `a` and do not hold `b`.
pub proof fn law_minus_excludes(a: Seq<char>, b: Seq<char>, text: Seq<char>)
    requires
        is_plain_word(a),
        is_term(b),
    ensures
        query_matches(text, parsed(a + seq![' ', '-'] + b)) <==> (is_substring(a, text)
            && !is_substring(b, text)),
{
    let mid = seq![' ', '-'];
    let q = a + mid + b;
    let la = a.len() as int;
    let n = q.len() as int;
    assert(n == la + 2 + b.len());
    assert forall|i: int| 0 <= i < n implies #[trigger] q[i] != '"' by {
        if i < la {
            assert(q[i] == a[i]);
        } else if i >= la + 2 {
            assert(q[i] == b[i - la - 2]);
        }
    }
    lemma_no_quotes(q);
    assert forall|k: int| 0 <= k < la implies !is_space(#[trigger] q[k]) by {
        assert(q[k] == a[k]);
    }
    assert(is_space(q[la]));
    assert(q[la + 1] == '-');
    assert forall|k: int| la + 1 <= k < n implies !is_space(#[trigger] q[k]) by {
        if k >= la + 2 {
            assert(q[k] == b[k - la - 2]);
        }
    }
    lemma_words_step(q, 0, 0, la);
    assert forall|k: int| la <= k < la + 1 implies is_space(#[trigger] q[k]) by {}
    lemma_words_step(q, la, la + 1, n);
    lemma_words_end(q, n);
    let signed = seq!['-'] + b;
    assert(q.subrange(0, la) =~= a);
    assert(q.subrange(la + 1, n) =~= signed);
    let ws = seq![a, signed];
    assert(words(q) =~= ws);
    assert(signed.skip(1) =~= b);
    assert(!eq_ignoring_ascii_case(signed, word_and())) by {
        if signed.len() == word_and().len() {
            assert(signed[0] == '-');
        }
    }
    assert(!eq_ignoring_ascii_case(signed, word_or())) by {
        if signed.len() == word_or().len() {
            assert(signed[0] == '-');
        }
    }
    assert(word_effect(ws, 0) == (TermLists { optional: seq![a], ..TermLists::none() }, 1int));
    assert(word_effect(ws, 1) == (TermLists { excluded: seq![b], ..TermLists::none() }, 1int));
    assert(sort_words(ws, 2) == TermLists::none());
    let l1 = sort_words(ws, 1);
    assert(l1.excluded =~= seq![b]);
    assert(l1.optional =~= Seq::<Seq<char>>::empty());
    assert(l1.required =~= Seq::<Seq<char>>::empty());
    let l0 = sort_words(ws, 0);
    assert(l0.optional =~= seq![a]);
    assert(l0.excluded =~= seq![b]);
    assert(l0.required =~= Seq::<Seq<char>>::empty());
    assert(!l0.has_and);
    let p = parsed(q);
    assert(lowered(Seq::<Seq<char>>::empty()) =~= Seq::<Seq<char>>::empty());
    assert(p.required_terms =~= Seq::<Seq<char>>::empty());
    assert(p.optional_terms =~= seq![a]);
    assert(p.excluded_terms =~= seq![b]);
    assert(p.exact_phrases =~= Seq::<Seq<char>>::empty());
    assert(p.optional_terms[0] == a);
    assert(p.excluded_terms[0] == b);
}

/// `"phrase"` is answered by exactly the texts that hold the phrase, blanks
/// and all.
pub proof fn law_phrase_is_exact(phrase: Seq<char>, text: Seq<char>)
    requires
        phrase.len() > 0,
        forall|i: int| 0 <= i < phrase.len() ==> #[trigger] phrase[i] != '"',
        lowercase_of(phrase) == phrase,
    ensures
        query_matches(text, parsed(seq!['"'] + phrase + seq!['"'])) <==> is_substring(
            phrase,
            text,
        ),
{
    let q = seq!['"'] + phrase + seq!['"'];
    let n = q.len() as int;
    assert(n == phrase.len() + 2);
    assert(q[0] == '"');
    assert(q[n - 1] == '"');
    assert forall|k: int| 1 <= k < n - 1 implies #[trigger] q[k] != '"' by {
        assert(q[k] == phrase[k - 1]);
    }
    lemma_first_in_class_is(q, 0, CharClass::Quote, 0);
    lemma_first_in_class_is(q, 1, CharClass::Quote, n - 1);
    lemma_first_in_class_is(q, n, CharClass::Quote, n);
    assert(first_in_class(q, n + 1, CharClass::Quote) == n);
    assert(q.subrange(1, n - 1) =~= phrase);
    assert(quoted_phrases(q, n) =~= Seq::<Seq<char>>::empty());
    assert(quoted_phrases(q, 0) =~= seq![phrase]);
    assert(without_phrases(q, n) =~= Seq::<char>::empty());
    assert(without_phrases(q, 0) =~= seq![' ']);
    let rest = seq![' '];
    lemma_words_end(rest, 0);
    let p = parsed(q);
    assert(lowered(seq![phrase]) =~= seq![phrase]);
    assert(p.exact_phrases =~= seq![phrase]);
    assert(p.required_terms =~= seq![phrase]);
    assert(p.optional_terms =~= Seq::<Seq<char>>::empty());
    assert(p.excluded_terms =~= Seq::<Seq<char>>::empty());
    assert(p.required_terms[0] == phrase);
    assert(p.exact_phrases[0] == phrase);
}

/// `-term` alone is answered by exactly the texts that do not hold `term`:
/// the term is excluded, and nothing else is asked.
pub proof fn law_minus_alone(term: Seq<char>, text: Seq<char>)
    requires
        is_term(term),
    ensures
        parsed(seq!['-'] + term).excluded_terms == seq![term],
        parsed(seq!['-'] + term).required_terms.len() == 0,
        parsed(seq!['-'] + term).optional_terms.len() == 0,
        parsed(seq!['-'] + term).exact_phrases.len() == 0,
        query_matches(text, parsed(seq!['-'] + term)) <==> !is_substring(term, text),
{
    let q = seq!['-'] + term;
    assert forall|i: int| 0 <= i < q.len() implies #[trigger] q[i] != '"' by {
        if i > 0 {
            assert(q[i] == term[i - 1]);
        }
    }
    lemma_no_quotes(q);
    assert forall|k: int| 0 <= k < q.len() implies !is_space(#[trigger] q[k]) by {
        if k > 0 {
            assert(q[k] == term[k - 1]);
        }
    }
    lemma_words_step(q, 0, 0, q.len() as int);
    lemma_words_end(q, q.len() as int);
    assert(q.subrange(0, q.len() as int) =~= q);
    let ws = seq![q];
    assert(words(q) =~= ws);
    assert(q.skip(1) =~= term);
    assert(!eq_ignoring_ascii_case(q, word_and())) by {
        if q.len() == word_and().len() {
            assert(q[0] == '-');
        }
    }
    assert(!eq_ignoring_ascii_case(q, word_or())) by {
        if q.len() == word_or().len() {
            assert(q[0] == '-');
        }
    }
    assert(word_effect(ws, 0) == (
        TermLists { excluded: seq![term], ..TermLists::none() },
        1int,
    ));
    assert(sort_words(ws, 1) == TermLists::none());
    let lists = sort_words(ws, 0);
    assert(lists.excluded =~= seq![term]);
    assert(lists.required =~= Seq::<Seq<char>>::empty());
    assert(lists.optional =~= Seq::<Seq<char>>::empty());
    assert(!lists.has_and);
    let p = parsed(q);
    assert(lowered(Seq::<Seq<char>>::empty()) =~= Seq::<Seq<char>>::empty());
    assert(p.excluded_terms =~= seq![term]);
    assert(p.excluded_terms[0] == term);
    assert(p.required_terms =~= Seq::<Seq<char>>::empty());
    assert(p.exact_phrases =~= Seq::<Seq<char>>::empty());
}

/// A quoted phrase and a word joined by `AND` are answered by exactly the
/// texts that hold both: the word and the phrase are required, in this
/// order, and nothing else is asked.
pub proof fn law_phrase_and_word(phrase: Seq<char>, word: Seq<char>, text: Seq<char>)
    requires
        phrase.len() > 0,
        forall|i: int| 0 <= i < phrase.len() ==> #[trigger] phrase[i] != '"',
        lowercase_of(phrase) == phrase,
        is_plain_word(word),
    ensures
        ({
            let q = seq!['"'] + phrase + seq!['"', ' ', 'A', 'N', 'D', ' '] + word;
            &&& parsed(q).required_terms == seq![word, phrase]
            &&& parsed(q).optional_terms.len() == 0
            &&& parsed(q).excluded_terms.len() == 0
            &&& parsed(q).exact_phrases == seq![phrase]
            &&& query_matches(text, parsed(q)) <==> (is_substring(phrase, text) && is_substring(
                word,
                text,
            ))
        }),
{
    let mid = seq!['"', ' ', 'A', 'N', 'D', ' '];
    let q = seq!['"'] + phrase + mid + word;
    let lp = phrase.len() as int;
    let lw = word.len() as int;
    let n = q.len() as int;
    assert(n == lp + 7 + lw);
    assert forall|i: int| 0 <= i < n implies q[i] == (if i == 0 {
        '"'
    } else if i <= lp {
        phrase[i - 1]
    } else if i < lp + 7 {
        mid[i - lp - 1]
    } else {
        word[i - lp - 7]
    }) by {}
    assert(q[0] == '"');
    assert(q[lp + 1] == '"');
    assert forall|k: int| 1 <= k < lp + 1 implies #[trigger] q[k] != '"' by {
        assert(q[k] == phrase[k - 1]);
    }
    assert forall|k: int| lp + 2 <= k < n implies #[trigger] q[k] != '"' by {
        if k < lp + 7 {
            assert(q[k] == mid[k - lp - 1]);
        } else {
            assert(q[k] == word[k - lp - 7]);
        }
    }
    lemma_first_in_class_is(q, 0, CharClass::Quote, 0);
    lemma_first_in_class_is(q, 1, CharClass::Quote, lp + 1);
    lemma_first_in_class_is(q, lp + 2, CharClass::Quote, n);
    assert(q.subrange(1, lp + 1) =~= phrase);
    assert(quoted_phrases(q, lp + 2) =~= Seq::<Seq<char>>::empty());
    assert(quoted_phrases(q, 0) =~= seq![phrase]);
    let rest = q.subrange(lp + 2, n);
    assert(without_phrases(q, lp + 2) =~= rest);
    let r = seq![' '] + rest;
    assert(q.subrange(0, 0) =~= Seq::<char>::empty());
    assert(without_phrases(q, 0) =~= r);
    let m = r.len() as int;
    assert(m == 6 + lw);
    assert forall|k: int| 1 <= k < m implies #[trigger] r[k] == q[k + lp + 1] by {}
    assert(is_space(r[0]));
    assert(is_space(r[1]));
    assert forall|k: int| 2 <= k < 5 implies !is_space(#[trigger] r[k]) by {
        assert(r[k] == mid[k]);
    }
    assert(is_space(r[5]));
    assert forall|k: int| 6 <= k < m implies !is_space(#[trigger] r[k]) by {
        assert(r[k] == word[k - 6]);
    }
    assert forall|k: int| 0 <= k < 2 implies is_space(#[trigger] r[k]) by {}
    lemma_words_step(r, 0, 2, 5);
    assert forall|k: int| 5 <= k < 6 implies is_space(#[trigger] r[k]) by {}
    lemma_words_step(r, 5, 6, m);
    lemma_words_end(r, m);
    let and = seq!['A', 'N', 'D'];
    assert(r.subrange(2, 5) =~= and);
    assert(r.subrange(6, m) =~= word);
    let ws = seq![and, word];
    assert(words(r) =~= ws);
    assert(eq_ignoring_ascii_case(and, word_and()));
    assert(word_effect(ws, 0) == (TermLists { has_and: true, ..TermLists::none() }, 1int));
    assert(word_effect(ws, 1) == (TermLists { optional: seq![word], ..TermLists::none() }, 1int));
    assert(sort_words(ws, 2) == TermLists::none());
    let l1 = sort_words(ws, 1);
    assert(l1.optional =~= seq![word]);
    assert(l1.required =~= Seq::<Seq<char>>::empty());
    assert(l1.excluded =~= Seq::<Seq<char>>::empty());
    let l0 = sort_words(ws, 0);
    assert(l0.optional =~= seq![word]);
    assert(l0.required =~= Seq::<Seq<char>>::empty());
    assert(l0.excluded =~= Seq::<Seq<char>>::empty());
    assert(l0.has_and);
    let p = parsed(q);
    assert(lowered(seq![phrase]) =~= seq![phrase]);
    assert(p.exact_phrases =~= seq![phrase]);
    assert(p.required_terms =~= seq![word, phrase]);
    assert(p.optional_terms =~= Seq::<Seq<char>>::empty());
    assert(p.excluded_terms =~= Seq::<Seq<char>>::empty());
    assert(p.required_terms[0] == word);
    assert(p.required_terms[1] == phrase);
    assert(p.exact_phrases[0] == phrase);
}

} // verus!
